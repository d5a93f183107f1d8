//! The messages that come over the socket.
use vstd::prelude::*;

use crate::event::Event;
use crate::path;
use crate::pdf;
use crate::pdf::{FileEntry, PdfState};
use crate::text::same_text;

verus! {

/// A message from the server.
#[derive(Debug)]
pub struct SocketMsg {
    pub msg_type: String,
    pub device_id: String,
    pub data: String,
}

/// A request to show a page, of a file or of what is on show.
#[derive(Debug)]
pub struct ShowReq {
    pub file_name: Option<String>,
    pub page: u32,
}

/// What is to be done about a message.
#[derive(Debug)]
pub enum MessageAction {
    /// It could not be read and is dropped.
    Drop,
    /// Fetch the files that are listed here.
    Sync(String),
    /// Show what is asked for here.
    Show(String),
    /// It is of this unknown type and is dropped.
    Unknown(String),
}

/// Tells by its type what is to be done about a message, if it could be read at all.
pub fn handle_ws_message(msg: Option<SocketMsg>) -> (r: MessageAction)
    ensures
        match msg {
            None => r is Drop,
            Some(msg) => if msg.msg_type@ == "data"@ {
                r == MessageAction::Sync(msg.data)
            } else if msg.msg_type@ == "show"@ {
                r == MessageAction::Show(msg.data)
            } else {
                r == MessageAction::Unknown(msg.msg_type)
            },
        },
{
    match msg {
        None => MessageAction::Drop,
        Some(msg) => if same_text(msg.msg_type.as_str(), "data") {
            MessageAction::Sync(msg.data)
        } else if same_text(msg.msg_type.as_str(), "show") {
            MessageAction::Show(msg.data)
        } else {
            MessageAction::Unknown(msg.msg_type)
        },
    }
}

/// What a request to show a page calls for next.
#[derive(Clone, Copy, Debug, PartialEq, Eq, Structural)]
pub enum ShowAction {
    /// The request could not be read and is dropped.
    Drop,
    /// List the directory.
    List,
    /// Read the file at this place of the listing.
    Read(usize),
    /// Tell the screen.
    Tell,
}

impl ShowReq {
    /// The file that is asked for.
    pub open spec fn wanted(self) -> Option<Seq<char>> {
        match self.file_name {
            Some(name) => Some(name@),
            None => None,
        }
    }
}

/// Whether the file at `i` is the first one listed under the name `name`.
pub open spec fn is_first_named(entries: Seq<FileEntry>, name: Seq<char>, i: int) -> bool {
    &&& 0 <= i < entries.len()
    &&& entries[i].name@ == name
    &&& forall|j: int| 0 <= j < i ==> (#[trigger] entries[j]).name@ != name
}

/// Whether no file is listed under the name `name`.
pub open spec fn none_named(entries: Seq<FileEntry>, name: Seq<char>) -> bool {
    forall|j: int| 0 <= j < entries.len() ==> (#[trigger] entries[j]).name@ != name
}

/// What a request that could be read calls for first.
pub open spec fn first_action(wanted: Option<Seq<char>>) -> ShowAction {
    if wanted is Some {
        ShowAction::List
    } else {
        ShowAction::Tell
    }
}

/// What follows once the directory was listed: reading the first file of the name asked for, and
/// where there is none, telling the screen.
pub open spec fn is_listed_action(
    wanted: Option<Seq<char>>,
    listing: Option<Seq<FileEntry>>,
    action: ShowAction,
) -> bool {
    match action {
        ShowAction::Read(i) => {
            &&& wanted is Some && listing is Some
            &&& is_first_named(listing->0, wanted->0, i as int)
        },
        ShowAction::Tell => {
            ||| wanted is None
            ||| listing is None
            ||| none_named(listing->0, wanted->0)
        },
        _ => false,
    }
}

/// Starts on a request to show a page: a file that is asked for has to be found first.
pub fn show_start(req: Option<&ShowReq>) -> (r: ShowAction)
    ensures
        r == match req {
            None => ShowAction::Drop,
            Some(req) => first_action(req.wanted()),
        },
{
    match req {
        None => ShowAction::Drop,
        Some(req) => match &req.file_name {
            Some(_) => ShowAction::List,
            None => ShowAction::Tell,
        },
    }
}

/// Looks for the file that is asked for. A listing is missing when the directory cannot be read.
pub fn show_listed(req: &ShowReq, listing: Option<&[FileEntry]>) -> (r: ShowAction)
    ensures
        is_listed_action(
            req.wanted(),
            match listing {
                Some(entries) => Some(entries@),
                None => None,
            },
            r,
        ),
{
    match (&req.file_name, listing) {
        (Some(name), Some(entries)) => {
            for k in 0..entries.len()
                invariant
                    req.file_name == Some(*name),
                    listing == Some(entries),
                    forall|j: int| 0 <= j < k ==> (#[trigger] entries@[j]).name@ != name@,
            {
                if entries[k].name == *name {
                    return ShowAction::Read(k);
                }
            }
            ShowAction::Tell
        },
        _ => ShowAction::Tell,
    }
}

/// Puts the file that was found on show, if it could be read. The screen is told either way.
pub fn show_read(state: &mut PdfState, path: String, readable: bool) -> (r: ShowAction)
    ensures
        final(state).loaded() == pdf::after_read(old(state).loaded(), path@, readable),
        readable ==> final(state).path == Some(path),
        !readable ==> final(state).path == old(state).path,
        r == ShowAction::Tell,
{
    state.record_read(path, readable);
    ShowAction::Tell
}

/// What the screen is told about a request: the file and the page, as they were asked for.
pub fn show_event(req: ShowReq) -> (r: Event)
    ensures
        r == (Event::PdfShow { file_name: req.file_name, page: req.page }),
{
    Event::PdfShow { file_name: req.file_name, page: req.page }
}

/// A request that could be read always reaches the screen: telling it is what comes first, or what
/// follows the listing, or what follows the reading of a file.
pub proof fn law_request_reaches_the_screen(
    wanted: Option<Seq<char>>,
    listing: Option<Seq<FileEntry>>,
    action: ShowAction,
)
    requires
        is_listed_action(wanted, listing, action),
    ensures
        first_action(wanted) == ShowAction::Tell || first_action(wanted) == ShowAction::List,
        action == ShowAction::Tell || action is Read,
        action is Read ==> first_action(wanted) == ShowAction::List,
{
}

/// What is on show after a request: once the directory was listed, `action` was done about it, and
/// `readable` tells whether a file that was found could be read.
pub open spec fn on_show_after(
    before: Option<Seq<char>>,
    listing: Option<Seq<FileEntry>>,
    action: ShowAction,
    readable: bool,
) -> Option<Seq<char>> {
    match action {
        ShowAction::Read(i) => pdf::after_read(before, listing->0[i as int].path@, readable),
        _ => before,
    }
}

/// A request changes what is on show only to the file it asks for, and only if that is listed and
/// can be read; when it is, it does.
pub proof fn law_show_loads_what_is_asked_for(
    wanted: Option<Seq<char>>,
    listing: Option<Seq<FileEntry>>,
    action: ShowAction,
    readable: bool,
    before: Option<Seq<char>>,
)
    requires
        is_listed_action(wanted, listing, action),
    ensures
        ({
            let after = on_show_after(before, listing, action, readable);
            &&& after != before ==> {
                &&& wanted is Some && listing is Some && readable
                &&& exists|i: int|
                    is_first_named(listing->0, wanted->0, i) && after == Some(
                        (#[trigger] listing->0[i]).path@,
                    )
            }
            &&& wanted is Some && listing is Some && readable ==> forall|i: int|
                is_first_named(listing->0, wanted->0, i) ==> after == Some(
                    (#[trigger] listing->0[i]).path@,
                )
        }),
{
    let after = on_show_after(before, listing, action, readable);
    if let ShowAction::Read(i) = action {
        assert(is_first_named(listing->0, wanted->0, i as int));
        assert(listing->0[i as int].name@ == wanted->0);
    }
    if wanted is Some && listing is Some && readable {
        assert forall|k: int| is_first_named(listing->0, wanted->0, k) implies after == Some(
            (#[trigger] listing->0[k]).path@,
        ) by {
            lemma_first_named(listing->0, wanted->0, k, action);
        }
    }
}

/// Over a listing of the directory, a request leaves what is on show or puts the file of the name
/// asked for on show, right inside the directory; one with a slash in its name changes nothing.
pub proof fn law_show_stays_in_the_directory(
    wanted: Option<Seq<char>>,
    listing: Option<Seq<FileEntry>>,
    action: ShowAction,
    readable: bool,
    before: Option<Seq<char>>,
)
    requires
        is_listed_action(wanted, listing, action),
        listing matches Some(entries) ==> pdf::lists_directory(entries),
    ensures
        ({
            let after = on_show_after(before, listing, action, readable);
            &&& after == before || {
                &&& wanted matches Some(name)
                &&& path::is_plain_name(name)
                &&& after == Some(path::path_of(name))
                &&& path::lies_directly_in(path::path_of(name), path::FILES_DIR@)
            }
            &&& wanted matches Some(name) ==> name.contains('/') ==> after == before
        }),
{
    if let ShowAction::Read(i) = action {
        let entry = listing->0[i as int];
        assert(path::is_plain_name(entry.name@));
        path::law_plain_names_stay_inside(entry.name@);
    }
}

proof fn lemma_first_named(
    entries: Seq<FileEntry>,
    name: Seq<char>,
    k: int,
    action: ShowAction,
)
    requires
        is_listed_action(Some(name), Some(entries), action),
        is_first_named(entries, name, k),
    ensures
        action == ShowAction::Read(k as usize),
        action->Read_0 == k,
{
    assert(entries[k].name@ == name);
}

/// A message is told by its type alone: one of type `data` is a list to fetch, one of type `show` a
/// request, with the data as they came; any other is unknown by its type, and only what could not
/// be read is dropped.
pub proof fn law_messages_go_by_their_type(msg: Option<SocketMsg>, r: MessageAction)
    requires
        call_ensures(handle_ws_message, (msg,), r),
    ensures
        r is Drop <==> msg is None,
        r is Sync <==> msg is Some && msg->0.msg_type@ == seq!['d', 'a', 't', 'a'],
        r is Show <==> msg is Some && msg->0.msg_type@ == seq!['s', 'h', 'o', 'w'],
        r matches MessageAction::Sync(data) ==> data@ == msg->0.data@,
        r matches MessageAction::Show(data) ==> data@ == msg->0.data@,
        r matches MessageAction::Unknown(other) ==> other@ == msg->0.msg_type@,
{
    reveal_strlit("data");
    reveal_strlit("show");
    assert("data"@ =~= seq!['d', 'a', 't', 'a']);
    assert("show"@ =~= seq!['s', 'h', 'o', 'w']);
    assert("data"@[0] != "show"@[0]);
}

/// A request that could be read begins with the listing exactly if it names a file, and else with
/// the screen; only what could not be read is dropped.
pub proof fn law_request_starts(req: Option<&ShowReq>, r: ShowAction)
    requires
        call_ensures(show_start, (req,), r),
    ensures
        r == ShowAction::Drop <==> req is None,
        r == ShowAction::List <==> req is Some && req->0.file_name is Some,
        r == ShowAction::Tell <==> req is Some && req->0.file_name is None,
{
}

/// The file that a request names is found exactly if it is listed, character for character, and it
/// is the first one so named; else, or without a listing, the screen is told at once.
pub proof fn law_request_finds_its_file(
    req: &ShowReq,
    listing: Option<&[FileEntry]>,
    r: ShowAction,
)
    requires
        call_ensures(show_listed, (req, listing), r),
    ensures
        r == ShowAction::Tell || r is Read,
        r is Read <==> req.file_name is Some && listing is Some && exists|j: int|
            0 <= j < listing->0@.len() && (#[trigger] listing->0@[j]).name@ == req.file_name->0@,
        r matches ShowAction::Read(i) ==> {
            &&& i < listing->0@.len()
            &&& listing->0@[i as int].name@ == req.file_name->0@
            &&& forall|j: int|
                0 <= j < i ==> (#[trigger] listing->0@[j]).name@ != req.file_name->0@
        },
{
}

/// The screen is told the file and the page of the request, as they were asked for.
pub proof fn law_screen_is_told_the_request(req: ShowReq, r: Event)
    requires
        call_ensures(show_event, (req,), r),
    ensures
        r matches Event::PdfShow { file_name, page } && file_name == req.file_name && page
            == req.page,
{
}

/// A file that was found and could be read is put on show, and one that could not be read leaves
/// what is on show as it is; the screen is told either way.
pub proof fn law_found_file_is_put_on_show(
    state: &mut PdfState,
    path: String,
    readable: bool,
    r: ShowAction,
)
    requires
        call_ensures(show_read, (state, path, readable), r),
    ensures
        readable ==> final(state).path == Some(path),
        !readable ==> final(state).path == old(state).path,
        r == ShowAction::Tell,
{
}

} // verus!
