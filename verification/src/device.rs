//! What the device is called.
use vstd::prelude::*;

use crate::text;

verus! {

/// What is known of the device.
#[derive(Debug)]
pub struct DeviceInfo {
    pub device_id: String,
    pub device_name: String,
    pub attachment_info: String,
}

/// The device's id, and whether it is new and has to be written down.
#[derive(Debug)]
pub struct DeviceId {
    pub id: String,
    pub fresh: bool,
}

/// The file that holds the device's id.
pub const ID_FILE: &'static str = "device_id.txt";

/// The file that holds the device's name.
pub const NAME_FILE: &'static str = "device_name.txt";

/// What is attached to the device.
pub const ATTACHMENT: &'static str = "PDF联动演示附件-001";

/// Whether a character is a hexadecimal digit in lower case.
pub open spec fn is_lower_hex(c: char) -> bool {
    '0' <= c <= '9' || 'a' <= c <= 'f'
}

/// Whether a text is a random UUID: 32 hexadecimal digits in lower case, in groups of 8, 4, 4, 4
/// and 12 with hyphens between them, of the version 4 and of the variant of RFC 9562.
pub open spec fn is_random_uuid(s: Seq<char>) -> bool {
    &&& s.len() == 36
    &&& forall|i: int|
        0 <= i < 36 ==> if i == 8 || i == 13 || i == 18 || i == 23 {
            #[trigger] s[i] == '-'
        } else {
            is_lower_hex(s[i])
        }
    &&& s[14] == '4'
    &&& s[19] == '8' || s[19] == '9' || s[19] == 'a' || s[19] == 'b'
}

/// `uuid::Uuid::new_v4`, written out: some random UUID. Which one rests on chance and is not
/// claimed. The call panics when the system gives no random bytes, which nothing here can exclude.
#[verifier::external_body]
fn random_uuid() -> (r: String)
    ensures
        is_random_uuid(r@),
{
    uuid::Uuid::new_v4().to_string()
}

/// The id that a file holds: its text without the white space around it, if anything is left.
pub open spec fn kept_id(contents: Option<Seq<char>>) -> Option<Seq<char>> {
    match contents {
        Some(s) => if text::trimmed(s).len() > 0 {
            Some(text::trimmed(s))
        } else {
            None
        },
        None => None,
    }
}

/// The name that a file holds: its text without the white space around it.
pub open spec fn kept_name(contents: Option<Seq<char>>) -> Seq<char> {
    match contents {
        Some(s) => text::trimmed(s),
        None => seq![],
    }
}

/// A text that may be missing, by its content.
pub open spec fn contents_of(file: Option<&str>) -> Option<Seq<char>> {
    match file {
        Some(s) => Some(s@),
        None => None,
    }
}

/// Reads the id off its file, which is missing when it could not be read.
pub fn read_device_id(file: Option<&str>) -> (r: Option<String>)
    ensures
        r is Some <==> kept_id(contents_of(file)) is Some,
        r matches Some(id) ==> kept_id(contents_of(file)) == Some(id@),
{
    match file {
        Some(s) => {
            let id = s.trim();
            if id.is_empty() {
                None
            } else {
                Some(id.to_string())
            }
        },
        None => None,
    }
}

/// Settles the device's id: the one that was kept, or else `new_id`, which has to be written down.
pub fn settle_device_id(kept: Option<String>, new_id: String) -> (r: DeviceId)
    ensures
        match kept {
            Some(id) => r.id == id && !r.fresh,
            None => r.id == new_id && r.fresh,
        },
{
    match kept {
        Some(id) => DeviceId { id, fresh: false },
        None => DeviceId { id: new_id, fresh: true },
    }
}

/// The device's id: the one in its file, or else a new random one.
pub fn get_or_create_device_id(file: Option<&str>) -> (r: DeviceId)
    ensures
        match kept_id(contents_of(file)) {
            Some(id) => r.id@ == id && !r.fresh,
            None => is_random_uuid(r.id@) && r.fresh,
        },
{
    let kept = read_device_id(file);
    let new_id = match &kept {
        Some(_) => String::new(),
        None => random_uuid(),
    };
    settle_device_id(kept, new_id)
}

/// The device's name: the one in its file, or else an empty one.
pub fn get_device_name(file: Option<&str>) -> (r: String)
    ensures
        r@ == kept_name(contents_of(file)),
{
    match file {
        Some(s) => s.trim().to_string(),
        None => String::new(),
    }
}

/// Puts together what is known of the device, once its id is settled.
pub fn device_info(device_id: String, name_file: Option<&str>) -> (r: DeviceInfo)
    ensures
        r.device_id == device_id,
        r.device_name@ == kept_name(contents_of(name_file)),
        r.attachment_info@ == ATTACHMENT@,
{
    DeviceInfo {
        device_id,
        device_name: get_device_name(name_file),
        attachment_info: ATTACHMENT.to_string(),
    }
}

/// What is known of the device, from the files of its id and of its name, and whether the id is
/// new and has to be written down.
pub fn get_device_info(id_file: Option<&str>, name_file: Option<&str>) -> (r: (DeviceInfo, bool))
    ensures
        match kept_id(contents_of(id_file)) {
            Some(id) => r.0.device_id@ == id && !r.1,
            None => is_random_uuid(r.0.device_id@) && r.1,
        },
        r.0.device_name@ == kept_name(contents_of(name_file)),
        r.0.attachment_info@ == ATTACHMENT@,
{
    let device_id = get_or_create_device_id(id_file);
    (device_info(device_id.id, name_file), device_id.fresh)
}

/// A new id that was written down is found again, the same.
pub proof fn law_new_id_is_kept(id: Seq<char>)
    requires
        is_random_uuid(id),
    ensures
        kept_id(Some(id)) == Some(id),
{
    assert(is_lower_hex(id[0]) && is_lower_hex(id[35]));
    text::law_trim_keeps(id);
}

/// An id that was found and is written down again is found again, the same.
pub proof fn law_kept_id_is_kept(contents: Option<Seq<char>>)
    requires
        kept_id(contents) is Some,
    ensures
        kept_id(kept_id(contents)) == kept_id(contents),
{
    text::law_trim_is_idempotent(contents->0);
}

/// A name that was saved is found without the white space around it; one without any is found as
/// it was saved, and saving what was found changes nothing.
pub proof fn law_saved_name_is_found(name: Seq<char>)
    ensures
        kept_name(Some(name)) == text::trimmed(name),
        name.len() > 0 && !text::is_white_space(name.first()) && !text::is_white_space(name.last())
            ==> kept_name(Some(name)) == name,
        kept_name(Some(kept_name(Some(name)))) == kept_name(Some(name)),
{
    text::law_trim_is_idempotent(name);
}

/// A text that holds nothing but white space, and only such a text, is trimmed down to nothing.
proof fn lemma_blank(s: Seq<char>)
    ensures
        text::trimmed(s).len() == 0 <==> forall|i: int|
            0 <= i < s.len() ==> text::is_white_space(#[trigger] s[i]),
{
    let cut = text::law_trim_cuts_white_space(s);
    if cut.0 < cut.1 {
        assert(!text::is_white_space(s[cut.0]));
    }
}

/// An id is kept exactly if its file holds something other than white space; it is then the stretch
/// of the text between the white space at its two ends, and is not written down again. Else the id
/// is a new random UUID, which is.
pub proof fn law_id_is_read_off_its_file(file: Option<&str>, r: DeviceId) -> (cut: (int, int))
    requires
        call_ensures(get_or_create_device_id, (file,), r),
    ensures
        ID_FILE@ == "device_id.txt"@,
        r.fresh <==> file is None || forall|i: int|
            0 <= i < file->0@.len() ==> text::is_white_space(#[trigger] file->0@[i]),
        !r.fresh ==> {
            &&& 0 <= cut.0 < cut.1 <= file->0@.len()
            &&& r.id@ == file->0@.subrange(cut.0, cut.1)
            &&& !text::is_white_space(file->0@[cut.0]) && !text::is_white_space(
                file->0@[cut.1 - 1],
            )
            &&& forall|i: int|
                0 <= i < cut.0 || cut.1 <= i < file->0@.len() ==> text::is_white_space(
                    #[trigger] file->0@[i],
                )
        },
        r.fresh ==> {
            &&& r.id@.len() == 36
            &&& r.id@[8] == '-' && r.id@[13] == '-' && r.id@[18] == '-' && r.id@[23] == '-'
            &&& r.id@[14] == '4'
            &&& seq!['8', '9', 'a', 'b'].contains(r.id@[19])
            &&& forall|i: int|
                0 <= i < 36 && i != 8 && i != 13 && i != 18 && i != 23 ==> '0' <= #[trigger] r.id@[i]
                    <= '9' || 'a' <= r.id@[i] <= 'f'
        },
{
    if r.fresh {
        let variants = seq!['8', '9', 'a', 'b'];
        assert(variants[0] == '8' && variants[1] == '9' && variants[2] == 'a' && variants[3] == 'b');
        assert(r.id@[8] == '-' && r.id@[13] == '-' && r.id@[18] == '-' && r.id@[23] == '-');
    }
    if let Some(s) = file {
        lemma_blank(s@);
        text::law_trim_cuts_white_space(s@)
    } else {
        (0, 0)
    }
}

/// The name is the stretch of its file's text between the white space at its two ends, and empty
/// without a file.
pub proof fn law_name_is_read_off_its_file(file: Option<&str>, r: String) -> (cut: (int, int))
    requires
        call_ensures(get_device_name, (file,), r),
    ensures
        NAME_FILE@ == "device_name.txt"@,
        file is None ==> r@.len() == 0,
        file matches Some(s) ==> {
            &&& 0 <= cut.0 <= cut.1 <= s@.len()
            &&& r@ == s@.subrange(cut.0, cut.1)
            &&& cut.0 < cut.1 ==> !text::is_white_space(s@[cut.0]) && !text::is_white_space(
                s@[cut.1 - 1],
            )
            &&& forall|i: int|
                0 <= i < cut.0 || cut.1 <= i < s@.len() ==> text::is_white_space(
                    #[trigger] s@[i],
                )
        },
{
    if let Some(s) = file {
        text::law_trim_cuts_white_space(s@)
    } else {
        (0, 0)
    }
}

/// An id that was kept is not replaced, and a new one is taken only where none was kept.
pub proof fn law_kept_id_is_settled_on(kept: Option<String>, new_id: String, r: DeviceId)
    requires
        call_ensures(settle_device_id, (kept, new_id), r),
    ensures
        r.fresh <==> kept is None,
        kept matches Some(id) ==> r.id@ == id@,
        kept is None ==> r.id@ == new_id@,
{
}

/// The device is known by the same id and name that it reports to the server with, and by its
/// attachment.
pub proof fn law_device_is_known_as_it_reports(
    id_file: Option<&str>,
    name_file: Option<&str>,
    info: (DeviceInfo, bool),
    id: DeviceId,
    name: String,
)
    requires
        call_ensures(get_device_info, (id_file, name_file), info),
        call_ensures(get_or_create_device_id, (id_file,), id),
        call_ensures(get_device_name, (name_file,), name),
    ensures
        info.1 == id.fresh,
        !id.fresh ==> info.0.device_id@ == id.id@,
        info.0.device_name@ == name@,
        info.0.attachment_info@ == "PDF联动演示附件-001"@,
{
}

/// What is put together of the device: its id as it was settled, its name, and its attachment.
pub proof fn law_device_is_put_together(
    device_id: String,
    name_file: Option<&str>,
    info: DeviceInfo,
    name: String,
)
    requires
        call_ensures(device_info, (device_id, name_file), info),
        call_ensures(get_device_name, (name_file,), name),
    ensures
        info.device_id@ == device_id@,
        info.device_name@ == name@,
        info.attachment_info@ == "PDF联动演示附件-001"@,
{
}

/// Reading the id finds one exactly where none has to be made, and finds the same.
pub proof fn law_id_is_read_before_it_is_made(
    file: Option<&str>,
    read: Option<String>,
    settled: DeviceId,
)
    requires
        call_ensures(read_device_id, (file,), read),
        call_ensures(get_or_create_device_id, (file,), settled),
    ensures
        read is None <==> settled.fresh,
        read matches Some(id) ==> id@ == settled.id@,
{
}

} // verus!
