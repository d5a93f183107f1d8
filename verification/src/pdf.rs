//! The PDF on show, and which file of the directory it is.
use vstd::prelude::*;

use crate::encoding;
use crate::encoding::base64_encode;
use crate::event::Event;
use crate::path;
use crate::path::{file_name_of, file_path};
use crate::text::chars_of;

verus! {

/// Which PDF is on show, if there is one.
#[derive(Debug)]
pub struct PdfState {
    pub path: Option<String>,
}

/// A file of the directory: its name, its path, and when it was last written, in nanoseconds from
/// the Unix epoch, where that is known.
#[derive(Debug)]
pub struct FileEntry {
    pub name: String,
    pub path: String,
    pub modified: Option<i128>,
}

/// What is on show after the file at `path` was read: that file if it could be read, and else what
/// was on show before.
pub open spec fn after_read(
    before: Option<Seq<char>>,
    path: Seq<char>,
    readable: bool,
) -> Option<Seq<char>> {
    if readable {
        Some(path)
    } else {
        before
    }
}

/// An entry for the file called `name` right inside the directory; only a plain name can stand for
/// one.
pub fn file_entry(name: String, modified: Option<i128>) -> (r: Option<FileEntry>)
    ensures
        r is Some <==> path::is_plain_name(name@),
        r matches Some(entry) ==> {
            &&& entry.name@ == name@
            &&& entry.path@ == path::path_of(name@)
            &&& entry.modified == modified
        },
{
    match file_path(name.as_str()) {
        Some(path) => Some(FileEntry { name, path, modified }),
        None => None,
    }
}

/// Whether a listing is of files right inside the directory, each with its own path.
pub open spec fn lists_directory(entries: Seq<FileEntry>) -> bool {
    forall|i: int|
        0 <= i < entries.len() ==> {
            &&& path::is_plain_name((#[trigger] entries[i]).name@)
            &&& entries[i].path@ == path::path_of(entries[i].name@)
        }
}

impl PdfState {
    /// The path of the PDF on show.
    pub open spec fn loaded(self) -> Option<Seq<char>> {
        match self.path {
            Some(path) => Some(path@),
            None => None,
        }
    }

    /// Nothing is on show at first.
    pub fn new() -> (r: PdfState)
        ensures
            r.loaded() == None::<Seq<char>>,
    {
        PdfState { path: None }
    }

    /// Puts the file at `path` on show, if it could be read; else all stays as it is.
    pub fn record_read(&mut self, path: String, readable: bool)
        ensures
            final(self).loaded() == after_read(old(self).loaded(), path@, readable),
            readable ==> final(self).path == Some(path),
            !readable ==> final(self).path == old(self).path,
    {
        if readable {
            self.path = Some(path);
        }
    }
}

/// A character with the letters of ASCII in lower case.
pub open spec fn ascii_lower(c: char) -> char {
    if 'A' <= c <= 'Z' {
        (c as u32 + 32) as char
    } else {
        c
    }
}

/// Whether two texts are the same but for the case of the letters of ASCII.
pub open spec fn same_ignoring_case(a: Seq<char>, b: Seq<char>) -> bool {
    &&& a.len() == b.len()
    &&& forall|i: int| 0 <= i < a.len() ==> ascii_lower(#[trigger] a[i]) == ascii_lower(b[i])
}

/// The place of the last dot, or -1.
pub open spec fn last_dot(name: Seq<char>) -> int
    decreases name.len(),
{
    if name.len() == 0 {
        -1
    } else if name.last() == '.' {
        name.len() - 1
    } else {
        last_dot(name.drop_last())
    }
}

/// The extension of a file's name: what follows the last dot, unless that dot is the first
/// character.
pub open spec fn extension(name: Seq<char>) -> Option<Seq<char>> {
    if name == ".."@ || last_dot(name) <= 0 {
        None
    } else {
        Some(name.skip(last_dot(name) + 1))
    }
}

/// Whether a file is a PDF by its name: the extension is `pdf` in any case.
pub open spec fn is_pdf_name(name: Seq<char>) -> bool {
    extension(name) matches Some(ext) && same_ignoring_case(ext, "pdf"@)
}

fn is_letter(c: char, lower: char, upper: char) -> (r: bool)
    requires
        'a' <= lower <= 'z',
        upper as int + 32 == lower as int,
    ensures
        r == (ascii_lower(c) == ascii_lower(lower)),
{
    c == lower || c == upper
}

/// Whether a file is a PDF by its name: the extension is `pdf` in any case.
pub fn has_pdf_extension(name: &str) -> (r: bool)
    ensures
        r == is_pdf_name(name@),
{
    let chars = chars_of(name);
    proof {
        law_pdf_names(name@);
        reveal_strlit(".pdf");
    }
    let len = chars.len();
    if len <= 4 {
        return false;
    }
    let ghost tail = name@.skip(len - 4);
    assert(tail[0] == chars@[len - 4] && tail[1] == chars@[len - 3] && tail[2] == chars@[len - 2]
        && tail[3] == chars@[len - 1]);
    chars[len - 4] == '.' && is_letter(chars[len - 3], 'p', 'P') && is_letter(
        chars[len - 2],
        'd',
        'D',
    ) && is_letter(chars[len - 1], 'f', 'F')
}

proof fn lemma_last_dot(name: Seq<char>)
    ensures
        -1 <= last_dot(name) < name.len(),
        last_dot(name) >= 0 ==> name[last_dot(name)] == '.',
        forall|i: int| last_dot(name) < i < name.len() ==> name[i] != '.',
    decreases name.len(),
{
    if name.len() > 0 && name.last() != '.' {
        lemma_last_dot(name.drop_last());
        assert forall|i: int| last_dot(name) < i < name.len() implies name[i] != '.' by {
            if i < name.len() - 1 {
                assert(name[i] == name.drop_last()[i]);
            }
        }
    }
}

/// A PDF's name ends in `.pdf`, in any case, with something before it.
pub proof fn law_pdf_names(name: Seq<char>)
    ensures
        is_pdf_name(name) <==> name.len() > 4 && same_ignoring_case(
            name.skip(name.len() - 4),
            ".pdf"@,
        ),
{
    reveal_strlit(".pdf");
    reveal_strlit("pdf");
    reveal_strlit("..");
    lemma_last_dot(name);
    let dot = last_dot(name);
    let n = name.len() as int;
    if is_pdf_name(name) {
        let ext = name.skip(dot + 1);
        let tail = name.skip(n - 4);
        assert(dot == n - 4);
        assert forall|i: int| 0 <= i < 4 implies ascii_lower(#[trigger] tail[i]) == ascii_lower(
            ".pdf"@[i],
        ) by {
            if i > 0 {
                assert(tail[i] == ext[i - 1]);
                assert(".pdf"@[i] == "pdf"@[i - 1]);
            }
        }
    }
    if n > 4 && same_ignoring_case(name.skip(n - 4), ".pdf"@) {
        let tail = name.skip(n - 4);
        assert(ascii_lower(tail[0]) == '.' && ascii_lower(tail[1]) == 'p' && ascii_lower(tail[2])
            == 'd' && ascii_lower(tail[3]) == 'f');
        assert(name[n - 4] == tail[0] && name[n - 3] == tail[1] && name[n - 2] == tail[2]
            && name[n - 1] == tail[3]);
        assert(dot == n - 4);
        let ext = name.skip(dot + 1);
        assert forall|i: int| 0 <= i < 3 implies ascii_lower(#[trigger] ext[i]) == ascii_lower(
            "pdf"@[i],
        ) by {
            assert(ext[i] == tail[i + 1]);
        }
    }
}

/// Whether a file is a PDF with a known time of writing.
pub open spec fn is_dated_pdf(entry: FileEntry) -> bool {
    is_pdf_name(entry.name@) && entry.modified is Some
}

/// Whether the file at `i` is the PDF written last; of several written at the same time, the one
/// listed first.
pub open spec fn is_newest_pdf(entries: Seq<FileEntry>, i: int) -> bool {
    &&& 0 <= i < entries.len()
    &&& is_dated_pdf(entries[i])
    &&& forall|j: int|
        0 <= j < entries.len() && is_dated_pdf(#[trigger] entries[j]) ==> {
            ||| entries[j].modified->0 < entries[i].modified->0
            ||| entries[j].modified->0 == entries[i].modified->0 && i <= j
        }
}

/// Whether `choice` is the newest PDF of a listing, and nothing only where there is none.
pub open spec fn is_rescan_choice(listing: Option<Seq<FileEntry>>, choice: Option<usize>) -> bool {
    match choice {
        Some(i) => listing is Some && is_newest_pdf(listing->0, i as int),
        None => listing is None || forall|j: int|
            0 <= j < listing->0.len() ==> !is_dated_pdf(#[trigger] listing->0[j]),
    }
}

/// Finds the PDF to load after a sync: the one written last. A listing is missing when the
/// directory does not exist or cannot be read.
pub fn rescan_and_load_pdf(listing: Option<&[FileEntry]>) -> (r: Option<usize>)
    ensures
        is_rescan_choice(
            match listing {
                Some(entries) => Some(entries@),
                None => None,
            },
            r,
        ),
{
    let entries = match listing {
        Some(entries) => entries,
        None => {
            return None;
        },
    };
    let mut best: Option<(usize, i128)> = None;
    for k in 0..entries.len()
        invariant
            match best {
                Some((i, time)) => {
                    &&& i < k
                    &&& is_newest_pdf(entries@.take(k as int), i as int)
                    &&& entries@[i as int].modified == Some(time)
                },
                None => forall|j: int| 0 <= j < k ==> !is_dated_pdf(#[trigger] entries@[j]),
            },
    {
        let entry = &entries[k];
        let ghost before = entries@.take(k as int);
        let ghost now = entries@.take(k + 1);
        assert(forall|j: int| 0 <= j < k ==> now[j] == before[j]);
        assert(now[k as int] == *entry);
        if let Some(time) = entry.modified {
            if has_pdf_extension(entry.name.as_str()) {
                let newer = match best {
                    Some((_, best_time)) => best_time < time,
                    None => true,
                };
                if newer {
                    best = Some((k, time));
                }
            }
        }
    }
    assert(entries@.take(entries@.len() as int) =~= entries@);
    match best {
        Some((i, _)) => Some(i),
        None => None,
    }
}

/// Whether the file at `i` is the first PDF listed.
pub open spec fn is_first_pdf(entries: Seq<FileEntry>, i: int) -> bool {
    &&& 0 <= i < entries.len()
    &&& is_pdf_name(entries[i].name@)
    &&& forall|j: int| 0 <= j < i ==> !is_pdf_name(#[trigger] entries[j].name@)
}

/// Finds the PDF to load when the device starts: the first one listed. A listing is missing when
/// the directory does not exist or cannot be read.
pub fn find_startup_pdf(listing: Option<&[FileEntry]>) -> (r: Option<usize>)
    ensures
        r matches Some(i) ==> listing is Some && is_first_pdf(listing->0@, i as int),
        r is None ==> listing is None || forall|j: int|
            0 <= j < listing->0@.len() ==> !is_pdf_name(#[trigger] listing->0@[j].name@),
{
    let entries = match listing {
        Some(entries) => entries,
        None => {
            return None;
        },
    };
    for k in 0..entries.len()
        invariant
            listing == Some(entries),
            forall|j: int| 0 <= j < k ==> !is_pdf_name(#[trigger] entries@[j].name@),
    {
        if has_pdf_extension(entries[k].name.as_str()) {
            return Some(k);
        }
    }
    None
}

/// Puts the PDF found at the start on show, if it could be read, and calls for its first page.
pub fn startup_pdf_read(state: &mut PdfState, path: String, readable: bool) -> (r: Option<Event>)
    ensures
        final(state).loaded() == after_read(old(state).loaded(), path@, readable),
        readable ==> final(state).path == Some(path),
        !readable ==> final(state).path == old(state).path,
        r is Some <==> readable,
        r matches Some(event) ==> {
            &&& event matches Event::PdfShow { file_name: Some(name), page }
            &&& page == 1
            &&& name@ == path::shown_name(path@)
        },
{
    let name = file_name_of(path.as_str());
    state.record_read(path, readable);
    if readable {
        Some(Event::PdfShow { file_name: Some(name), page: 1 })
    } else {
        None
    }
}

/// A PDF for the screen: the name of the file, and what it holds in Base64.
#[derive(Debug)]
pub struct PdfData {
    pub file_name: String,
    pub base64: String,
}

/// Whether `data` is the file at `path` that holds `bytes`.
pub open spec fn is_handed_out(data: PdfData, path: Seq<char>, bytes: Seq<u8>) -> bool {
    &&& data.file_name@ == path::shown_name(path)
    &&& data.base64@ == encoding::base64_text(bytes)
}

/// Hands out the PDF on show, given what was read of it. There is nothing to hand out when no PDF
/// is on show or when it could not be read.
pub fn get_pdf_data(state: &PdfState, read: Option<&[u8]>) -> (r: Option<PdfData>)
    requires
        read matches Some(bytes) ==> encoding::base64_length(bytes@.len() as int) <= isize::MAX,
    ensures
        r is Some <==> state.loaded() is Some && read is Some,
        r matches Some(data) ==> is_handed_out(data, state.loaded()->0, read->0@),
{
    match (&state.path, read) {
        (Some(path), Some(bytes)) => Some(
            PdfData { file_name: file_name_of(path.as_str()), base64: base64_encode(bytes) },
        ),
        _ => None,
    }
}

/// The newest PDF is the first of any order of the PDFs that puts later times first and leaves
/// files of the same time as they were listed.
pub proof fn law_newest_heads_the_sorted_listing(entries: Seq<FileEntry>, order: Seq<int>)
    requires
        order.len() > 0,
        forall|p: int|
            0 <= p < order.len() ==> 0 <= #[trigger] order[p] < entries.len() && is_dated_pdf(
                entries[order[p]],
            ),
        forall|j: int|
            0 <= j < entries.len() && is_dated_pdf(#[trigger] entries[j]) ==> order.contains(j),
        forall|p: int, q: int|
            0 <= p < q < order.len() ==> {
                let (s, t) = (entries[#[trigger] order[p]].modified->0, entries[#[trigger] order[q]].modified->0);
                s > t || s == t && order[p] < order[q]
            },
    ensures
        is_newest_pdf(entries, order[0]),
{
    assert forall|j: int| 0 <= j < entries.len() && is_dated_pdf(#[trigger] entries[j]) implies {
        ||| entries[j].modified->0 < entries[order[0]].modified->0
        ||| entries[j].modified->0 == entries[order[0]].modified->0 && order[0] <= j
    } by {
        let q = choose|q: int| 0 <= q < order.len() && order[q] == j;
        assert(order[q] == j);
    }
}

/// There is no more than one newest PDF.
pub proof fn law_newest_is_unique(entries: Seq<FileEntry>, i: int, j: int)
    requires
        is_newest_pdf(entries, i),
        is_newest_pdf(entries, j),
    ensures
        i == j,
{
    assert(is_dated_pdf(entries[i]) && is_dated_pdf(entries[j]));
}

/// A PDF written later than every other one is the newest, wherever it is listed: so is a file
/// that has just been marked as new.
pub proof fn law_latest_pdf_is_newest(entries: Seq<FileEntry>, i: int)
    requires
        0 <= i < entries.len(),
        is_dated_pdf(entries[i]),
        forall|j: int|
            0 <= j < entries.len() && j != i && is_dated_pdf(#[trigger] entries[j])
                ==> entries[j].modified->0 < entries[i].modified->0,
    ensures
        is_newest_pdf(entries, i),
{
}

/// What is on show after a rescan that settled on `choice`, where `readable` tells whether that
/// file could be read.
pub open spec fn on_show_after_rescan(
    before: Option<Seq<char>>,
    listing: Option<Seq<FileEntry>>,
    choice: Option<usize>,
    readable: bool,
) -> Option<Seq<char>> {
    match choice {
        Some(i) => after_read(before, listing->0[i as int].path@, readable),
        None => before,
    }
}

/// After a rescan the newest PDF is on show, if there is one and it can be read; else what was on
/// show before stays.
pub proof fn law_rescan_loads_the_newest(
    before: Option<Seq<char>>,
    listing: Option<Seq<FileEntry>>,
    choice: Option<usize>,
    readable: bool,
)
    requires
        is_rescan_choice(listing, choice),
    ensures
        ({
            let after = on_show_after_rescan(before, listing, choice, readable);
            &&& listing is Some && readable ==> forall|i: int|
                is_newest_pdf(listing->0, i) ==> after == Some((#[trigger] listing->0[i]).path@)
            &&& !readable ==> after == before
            &&& listing is None ==> after == before
            &&& listing is Some && (forall|i: int| !is_newest_pdf(listing->0, i)) ==> after == before
        }),
{
    let after = on_show_after_rescan(before, listing, choice, readable);
    if listing is Some && readable {
        assert forall|i: int| is_newest_pdf(listing->0, i) implies after == Some(
            (#[trigger] listing->0[i]).path@,
        ) by {
            assert(is_dated_pdf(listing->0[i]));
            if let Some(k) = choice {
                law_newest_is_unique(listing->0, i, k as int);
            }
        }
    }
}

/// A rescan of the directory leaves what is on show or puts a PDF right inside the directory on
/// show.
pub proof fn law_rescan_stays_in_the_directory(
    before: Option<Seq<char>>,
    listing: Option<Seq<FileEntry>>,
    choice: Option<usize>,
    readable: bool,
)
    requires
        is_rescan_choice(listing, choice),
        listing matches Some(entries) ==> lists_directory(entries),
    ensures
        ({
            let after = on_show_after_rescan(before, listing, choice, readable);
            after == before || exists|name: Seq<char>| #[trigger]
                is_pdf_name(name) && path::is_plain_name(name) && after == Some(
                    path::path_of(name),
                )
        }),
{
    if let Some(i) = choice {
        assert(is_pdf_name(listing->0[i as int].name@));
    }
}

/// A PDF's name, letter by letter: something, a dot, and `pdf` with each letter in either case.
pub proof fn law_pdf_name_letters(name: Seq<char>)
    ensures
        ({
            let n = name.len() as int;
            is_pdf_name(name) <==> {
                &&& n > 4
                &&& name[n - 4] == '.'
                &&& name[n - 3] == 'p' || name[n - 3] == 'P'
                &&& name[n - 2] == 'd' || name[n - 2] == 'D'
                &&& name[n - 1] == 'f' || name[n - 1] == 'F'
            }
        }),
{
    law_pdf_names(name);
    reveal_strlit(".pdf");
    if name.len() > 4 {
        let tail = name.skip(name.len() - 4);
        let n = name.len() as int;
        assert(tail[0] == name[n - 4] && tail[1] == name[n - 3] && tail[2] == name[n - 2] && tail[3]
            == name[n - 1]);
        assert(same_ignoring_case(tail, ".pdf"@) ==> ascii_lower(tail[0]) == '.' && ascii_lower(
            tail[1],
        ) == 'p' && ascii_lower(tail[2]) == 'd' && ascii_lower(tail[3]) == 'f');
    }
}

/// A PDF is told by the letters of its name and by nothing else.
pub proof fn law_pdfs_are_told_by_their_letters(name: &str, r: bool)
    requires
        call_ensures(has_pdf_extension, (name,), r),
    ensures
        ({
            let n = name@.len() as int;
            r <==> {
                &&& n > 4
                &&& name@[n - 4] == '.'
                &&& name@[n - 3] == 'p' || name@[n - 3] == 'P'
                &&& name@[n - 2] == 'd' || name@[n - 2] == 'D'
                &&& name@[n - 1] == 'f' || name@[n - 1] == 'F'
            }
        }),
{
    law_pdf_name_letters(name@);
}

/// A rescan finds a PDF exactly if one with a known time of writing is listed, whatever that time
/// is; and no such PDF was written later than the one it finds, nor at the same time and listed
/// before it.
pub proof fn law_rescan_takes_the_latest(entries: &[FileEntry], r: Option<usize>)
    requires
        call_ensures(rescan_and_load_pdf, (Some(entries),), r),
    ensures
        ({
            let counts = |e: FileEntry|
                {
                    let n = e.name@.len() as int;
                    &&& n > 4
                    &&& e.name@[n - 4] == '.'
                    &&& e.name@[n - 3] == 'p' || e.name@[n - 3] == 'P'
                    &&& e.name@[n - 2] == 'd' || e.name@[n - 2] == 'D'
                    &&& e.name@[n - 1] == 'f' || e.name@[n - 1] == 'F'
                    &&& e.modified is Some
                };
            &&& r is Some <==> exists|j: int|
                0 <= j < entries@.len() && counts(#[trigger] entries@[j])
            &&& r matches Some(i) ==> {
                &&& i < entries@.len()
                &&& counts(entries@[i as int])
                &&& forall|j: int|
                    0 <= j < entries@.len() && counts(#[trigger] entries@[j]) ==> {
                        &&& entries@[j].modified->0 <= entries@[i as int].modified->0
                        &&& j < i ==> entries@[j].modified->0 < entries@[i as int].modified->0
                    }
            }
        }),
{
    assert forall|j: int| 0 <= j < entries@.len() implies is_dated_pdf(#[trigger] entries@[j]) == (
    is_pdf_name(entries@[j].name@) && entries@[j].modified is Some) by {}
    assert forall|j: int| 0 <= j < entries@.len() implies ({
        let e = #[trigger] entries@[j];
        let n = e.name@.len() as int;
        is_pdf_name(e.name@) <==> {
            &&& n > 4
            &&& e.name@[n - 4] == '.'
            &&& e.name@[n - 3] == 'p' || e.name@[n - 3] == 'P'
            &&& e.name@[n - 2] == 'd' || e.name@[n - 2] == 'D'
            &&& e.name@[n - 1] == 'f' || e.name@[n - 1] == 'F'
        }
    }) by {
        law_pdf_name_letters(entries@[j].name@);
    }
    if let Some(i) = r {
        assert(is_dated_pdf(entries@[i as int]));
    }
}

/// At the start the first PDF that is listed is found, whenever there is one.
pub proof fn law_start_takes_the_first(entries: &[FileEntry], r: Option<usize>)
    requires
        call_ensures(find_startup_pdf, (Some(entries),), r),
    ensures
        ({
            let counts = |e: FileEntry|
                {
                    let n = e.name@.len() as int;
                    &&& n > 4
                    &&& e.name@[n - 4] == '.'
                    &&& e.name@[n - 3] == 'p' || e.name@[n - 3] == 'P'
                    &&& e.name@[n - 2] == 'd' || e.name@[n - 2] == 'D'
                    &&& e.name@[n - 1] == 'f' || e.name@[n - 1] == 'F'
                };
            &&& r is Some <==> exists|j: int|
                0 <= j < entries@.len() && counts(#[trigger] entries@[j])
            &&& r matches Some(i) ==> {
                &&& i < entries@.len()
                &&& counts(entries@[i as int])
                &&& forall|j: int| 0 <= j < i ==> !counts(#[trigger] entries@[j])
            }
        }),
{
    assert forall|j: int| 0 <= j < entries@.len() implies ({
        let e = #[trigger] entries@[j];
        let n = e.name@.len() as int;
        is_pdf_name(e.name@) <==> {
            &&& n > 4
            &&& e.name@[n - 4] == '.'
            &&& e.name@[n - 3] == 'p' || e.name@[n - 3] == 'P'
            &&& e.name@[n - 2] == 'd' || e.name@[n - 2] == 'D'
            &&& e.name@[n - 1] == 'f' || e.name@[n - 1] == 'F'
        }
    }) by {
        law_pdf_name_letters(entries@[j].name@);
    }
    if let Some(i) = r {
        assert(is_pdf_name(entries@[i as int].name@));
    }
}

/// Without a listing there is nothing to find, neither after a sync nor at the start.
pub proof fn law_nothing_is_found_without_a_listing(
    listing: Option<&[FileEntry]>,
    r: Option<usize>,
)
    requires
        listing is None,
        call_ensures(rescan_and_load_pdf, (listing,), r) || call_ensures(
            find_startup_pdf,
            (listing,),
            r,
        ),
    ensures
        r is None,
{
}

/// What is on show is the path that is recorded; reading a file puts it on show if that succeeds,
/// and changes nothing if it fails, whatever was on show before.
pub proof fn law_reading_puts_on_show(
    state: PdfState,
    before: Option<Seq<char>>,
    path: Seq<char>,
)
    ensures
        state.loaded() is Some <==> state.path is Some,
        state.path matches Some(shown) ==> state.loaded() == Some(shown@),
        after_read(before, path, true) == Some(path),
        after_read(before, path, false) == before,
{
}

/// The screen gets something exactly if a PDF is on show and was read: the last component of its
/// path as the name, and a text that stands for its bytes in Base64.
pub proof fn law_screen_gets_the_pdf_on_show(
    state: &PdfState,
    read: Option<&[u8]>,
    r: Option<PdfData>,
)
    requires
        call_ensures(get_pdf_data, (state, read), r),
    ensures
        r is Some <==> state.path is Some && read is Some,
        r matches Some(data) ==> {
            &&& data.file_name@ == path::shown_name(state.path->0@)
            &&& data.base64@ == encoding::base64_text(read->0@)
            &&& encoding::base64_bytes(data.base64@) == read->0@
        },
{
    if let Some(bytes) = read {
        encoding::law_base64_decoding_gives_back(bytes@);
    }
}

/// An entry stands for the file of its name right inside the directory, and tells the time it was
/// given; there is one exactly for the names that lead one directory down.
pub proof fn law_entries_are_files_of_the_directory(
    name: String,
    modified: Option<i128>,
    r: Option<FileEntry>,
)
    requires
        call_ensures(file_entry, (name, modified), r),
    ensures
        r is Some <==> path::walk(Seq::empty(), name@) == seq![name@],
        r matches Some(entry) ==> {
            &&& entry.name@ == name@
            &&& entry.path@ == "/storage/emulated/0/Android/data/com.pdf_link_demo.app/files/"@
                + name@
            &&& entry.modified == modified
        },
{
    path::law_plain_names_lead_one_down(name@);
    path::law_path_of_a_name(name@);
}

/// At the start, a PDF that could be read is put on show, and its first page is called for under
/// its name; one that could not be read changes nothing, and nothing is called for.
pub proof fn law_start_shows_the_first_page(
    state: &mut PdfState,
    path: String,
    readable: bool,
    r: Option<Event>,
)
    requires
        call_ensures(startup_pdf_read, (state, path, readable), r),
    ensures
        readable ==> final(state).path == Some(path) && (r matches Some(event)
            && event matches Event::PdfShow { file_name: Some(name), page } && name@
            == path::shown_name(path@) && page == 1),
        !readable ==> final(state).path == old(state).path && r is None,
{
}

/// A file that could be read is the one on show from then on; one that could not be read leaves
/// what is on show as it is.
pub proof fn law_read_file_is_recorded(state: &mut PdfState, path: String, readable: bool)
    requires
        call_ensures(PdfState::record_read, (state, path, readable), ()),
    ensures
        readable ==> final(state).path == Some(path),
        !readable ==> final(state).path == old(state).path,
{
}

/// Nothing is on show at first.
pub proof fn law_nothing_is_on_show_at_first(r: PdfState)
    requires
        call_ensures(PdfState::new, (), r),
    ensures
        r.path is None,
{
}

} // verus!
