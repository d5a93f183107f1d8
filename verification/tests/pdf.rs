use base64::Engine;
use pdf_link::event::Event;
use pdf_link::http::{get_page_handler, get_pdf_handler, Body, HttpResponse, PageParams};
use pdf_link::message::{
    handle_ws_message, show_event, show_listed, show_read, show_start, MessageAction, ShowAction, ShowReq, SocketMsg,
};
use pdf_link::path::{file_name_of, FILES_DIR};
use pdf_link::pdf::{
    file_entry, find_startup_pdf, get_pdf_data, has_pdf_extension, rescan_and_load_pdf, startup_pdf_read, FileEntry,
    PdfState,
};

fn entry(name: &str, modified: Option<i128>) -> FileEntry {
    FileEntry { name: name.to_string(), path: format!("{}/{}", FILES_DIR, name), modified }
}

fn message(msg_type: &str, data: &str) -> MessageAction {
    handle_ws_message(Some(SocketMsg {
        msg_type: msg_type.to_string(),
        device_id: "id".to_string(),
        data: data.to_string(),
    }))
}

fn request(file_name: Option<&str>, page: u32) -> ShowReq {
    ShowReq { file_name: file_name.map(|n| n.to_string()), page }
}

fn on_show(path: &str) -> PdfState {
    PdfState { path: Some(path.to_string()) }
}

#[test]
fn pdfs_are_told_by_their_extension() {
    for name in ["a.pdf", "a.PDF", "a.b.Pdf", "..pdf", "a..pdF", "会.pdf", " .pdf"] {
        assert!(has_pdf_extension(name), "{}", name);
    }
    for name in ["", ".", "..", "pdf", ".pdf", "a.pdf.", "a.pdfx", "apdf", "a.txt", "a.pd", "a.рdf", "a. pdf"] {
        assert!(!has_pdf_extension(name), "{}", name);
    }
}

#[test]
fn extensions_agree_with_paths() {
    let parts = ["", ".", "a", "pdf", "PDF", ".pdf", "x.", "pdF"];
    for a in parts {
        for b in parts {
            for c in parts {
                let name = format!("{}{}{}", a, b, c);
                let expected = std::path::Path::new(&name)
                    .extension()
                    .map(|ext| ext.eq_ignore_ascii_case("pdf"))
                    .unwrap_or(false);
                assert_eq!(has_pdf_extension(&name), expected, "{}", name);
            }
        }
    }
}

#[test]
fn the_newest_pdf_is_loaded() {
    let entries = [
        entry("old.pdf", Some(5)),
        entry("new.txt", Some(99)),
        entry("undated.pdf", None),
        entry("new.pdf", Some(8)),
        entry("as-new.pdf", Some(8)),
        entry("before.pdf", Some(-7)),
    ];
    assert_eq!(rescan_and_load_pdf(Some(&entries)), Some(3));
    assert_eq!(rescan_and_load_pdf(Some(&entries[..1])), Some(0));
    assert_eq!(rescan_and_load_pdf(Some(&entries[1..3])), None);
    assert_eq!(rescan_and_load_pdf(Some(&entries[5..])), Some(0));
    assert_eq!(rescan_and_load_pdf(Some(&[])), None);
    assert_eq!(rescan_and_load_pdf(None), None);
}

#[test]
fn the_newest_pdf_heads_the_sorted_listing() {
    for seed in 0..200u64 {
        let entries: Vec<FileEntry> = (0..8u64)
            .map(|i| {
                let n = (seed * 31 + i * 17 + seed * i * 7) % 11;
                let name = if n % 4 == 0 { format!("{}.txt", i) } else { format!("{}.pdf", i) };
                entry(&name, if n == 5 { None } else { Some((n % 3) as i128) })
            })
            .collect();
        let mut order: Vec<usize> = (0..entries.len())
            .filter(|i| has_pdf_extension(&entries[*i].name) && entries[*i].modified.is_some())
            .collect();
        order.sort_by(|a, b| entries[*b].modified.cmp(&entries[*a].modified));
        assert_eq!(rescan_and_load_pdf(Some(&entries)), order.first().copied());
    }
}

#[test]
fn the_first_pdf_is_loaded_at_the_start() {
    let entries = [entry("a.txt", Some(9)), entry("b.pdf", None), entry("c.pdf", Some(9))];
    assert_eq!(find_startup_pdf(Some(&entries)), Some(1));
    assert_eq!(find_startup_pdf(Some(&entries[..1])), None);
    assert_eq!(find_startup_pdf(None), None);
}

#[test]
fn the_start_shows_the_first_page() {
    let mut state = PdfState::new();
    assert_eq!(state.path, None);
    assert!(startup_pdf_read(&mut state, "/dir/a.pdf".to_string(), false).is_none());
    assert_eq!(state.path, None);
    let event = startup_pdf_read(&mut state, "/dir/a.pdf".to_string(), true).unwrap();
    assert_eq!(state.path.as_deref(), Some("/dir/a.pdf"));
    assert_eq!(event.name(), "pdf_show");
    match event {
        Event::PdfShow { file_name, page } => {
            assert_eq!(file_name.as_deref(), Some("a.pdf"));
            assert_eq!(page, 1);
        }
        _ => panic!("not a pdf_show"),
    }
}

#[test]
fn only_a_file_that_was_read_is_put_on_show() {
    let mut state = on_show("/old.pdf");
    state.record_read("/new.pdf".to_string(), false);
    assert_eq!(state.path.as_deref(), Some("/old.pdf"));
    state.record_read("/new.pdf".to_string(), true);
    assert_eq!(state.path.as_deref(), Some("/new.pdf"));
}

#[test]
fn file_names_are_last_components() {
    assert_eq!(file_name_of(&format!("{}/a b.pdf", FILES_DIR)), "a b.pdf");
    assert_eq!(file_name_of("/usr/bin/"), "bin");
    assert_eq!(file_name_of("/tmp/foo.txt/."), "foo.txt");
    assert_eq!(file_name_of("/tmp/foo.txt/.//"), "foo.txt");
    assert_eq!(file_name_of("/tmp/.."), "");
    assert_eq!(file_name_of("/"), "");
    assert_eq!(file_name_of("/."), "");
    assert_eq!(file_name_of("/..."), "...");
    assert_eq!(file_name_of("/会议/议程.pdf"), "议程.pdf");
    assert_eq!(file_name_of("/dir/a\\b.pdf"), "a\\b.pdf");
    assert_eq!(file_name_of("a.pdf"), "a.pdf");
    assert_eq!(file_name_of(""), "");
    assert_eq!(file_name_of("."), "");
    assert_eq!(file_name_of("//x/."), "x");
}

#[test]
fn file_names_agree_with_paths() {
    let parts = ["", "/", ".", "..", "a", "//", "/.", "b.c"];
    for a in parts {
        for b in parts {
            for c in parts {
                for d in parts {
                    let path = format!("{}{}{}{}", a, b, c, d);
                    let expected = std::path::Path::new(&path)
                        .file_name()
                        .unwrap_or_default()
                        .to_string_lossy()
                        .to_string();
                    assert_eq!(file_name_of(&path), expected, "{}", path);
                }
            }
        }
    }
}

#[test]
fn the_screen_and_http_get_the_same_file() {
    let state = on_show("/dir/odd\\name.pdf");
    let bytes: Vec<u8> = (0..=255u8).collect();
    let data = get_pdf_data(&state, Some(&bytes)).unwrap();
    assert_eq!(data.file_name, "odd\\name.pdf");
    let decoded = base64::engine::general_purpose::STANDARD.decode(data.base64).unwrap();
    let response = get_pdf_handler(&state, Ok(bytes));
    assert!(matches!(response.body, Body::Bytes(b) if b == decoded));
}

#[test]
fn the_pdf_on_show_is_handed_out_in_base64() {
    let state = on_show("/dir/a.pdf");
    let data = get_pdf_data(&state, Some(b"%PDF-1.7")).unwrap();
    assert_eq!(data.file_name, "a.pdf");
    assert_eq!(data.base64, "JVBERi0xLjc=");
    assert!(get_pdf_data(&state, None).is_none());
    assert!(get_pdf_data(&PdfState::new(), Some(b"x")).is_none());
    assert!(get_pdf_data(&PdfState::new(), None).is_none());
}

#[test]
fn base64_is_the_standard_one() {
    let state = on_show("/a");
    let encode = |bytes: &[u8]| get_pdf_data(&state, Some(bytes)).unwrap().base64;
    assert_eq!(encode(b""), "");
    assert_eq!(encode(b"f"), "Zg==");
    assert_eq!(encode(b"fo"), "Zm8=");
    assert_eq!(encode(b"foo"), "Zm9v");
    assert_eq!(encode(b"foobar"), "Zm9vYmFy");
    assert_eq!(encode(&[0xfb, 0xff, 0xbf]), "+/+/");
}

#[test]
fn base64_can_be_read_back() {
    let state = on_show("/a");
    for len in 0..70usize {
        let bytes: Vec<u8> = (0..len).map(|i| (i * 37 + len) as u8).collect();
        let text = get_pdf_data(&state, Some(&bytes)).unwrap().base64;
        assert_eq!(text.len(), (len + 2) / 3 * 4);
        assert_eq!(base64::engine::general_purpose::STANDARD.decode(text).unwrap(), bytes);
    }
}

#[test]
fn messages_are_told_by_their_type() {
    assert!(matches!(message("data", "[]"), MessageAction::Sync(d) if d == "[]"));
    assert!(matches!(message("show", "{}"), MessageAction::Show(d) if d == "{}"));
    assert!(matches!(message("Data", "x"), MessageAction::Unknown(t) if t == "Data"));
    assert!(matches!(message("", "x"), MessageAction::Unknown(t) if t.is_empty()));
    assert!(matches!(handle_ws_message(None), MessageAction::Drop));
}

#[test]
fn a_request_for_a_file_lists_the_directory() {
    assert_eq!(show_start(None), ShowAction::Drop);
    assert_eq!(show_start(Some(&request(None, 3))), ShowAction::Tell);
    assert_eq!(show_start(Some(&request(Some("a.pdf"), 3))), ShowAction::List);
}

#[test]
fn the_file_asked_for_is_found_by_its_name() {
    let entries = [entry("A.pdf", None), entry("a.pdf", None), entry("b.txt", None)];
    assert_eq!(show_listed(&request(Some("a.pdf"), 1), Some(&entries)), ShowAction::Read(1));
    assert_eq!(show_listed(&request(Some("b.txt"), 1), Some(&entries)), ShowAction::Read(2));
    assert_eq!(show_listed(&request(Some("c.pdf"), 1), Some(&entries)), ShowAction::Tell);
    assert_eq!(show_listed(&request(Some("a.pdf"), 1), None), ShowAction::Tell);
    assert_eq!(show_listed(&request(None, 1), Some(&entries)), ShowAction::Tell);
}

#[test]
fn entries_are_files_right_inside_the_directory() {
    let e = file_entry("a.pdf".to_string(), Some(-7)).unwrap();
    assert_eq!((e.name.as_str(), e.modified), ("a.pdf", Some(-7)));
    assert_eq!(e.path, format!("{}/a.pdf", FILES_DIR));
    assert!(file_entry("...".to_string(), None).unwrap().modified.is_none());
    for name in ["", ".", "..", "a/b.pdf", "/a.pdf"] {
        assert!(file_entry(name.to_string(), Some(1)).is_none(), "{}", name);
    }
}

#[test]
fn a_request_shows_only_files_right_inside_the_directory() {
    let names = ["a.pdf", "b.pdf", "logs"];
    let files: Vec<FileEntry> = names.iter().map(|n| file_entry(n.to_string(), None).unwrap()).collect();
    for wanted in ["logs/a.pdf", "../a.pdf", "./a.pdf", "/a.pdf", "a.pdf/", FILES_DIR, "..", ""] {
        assert!(matches!(show_listed(&request(Some(wanted), 1), Some(&files)), ShowAction::Tell), "{}", wanted);
    }
    let mut state = on_show("/x.pdf");
    match show_listed(&request(Some("b.pdf"), 1), Some(&files)) {
        ShowAction::Read(i) => {
            show_read(&mut state, files[i].path.clone(), true);
        }
        _ => panic!("the file is there"),
    }
    assert_eq!(state.path, Some(format!("{}/b.pdf", FILES_DIR)));
}

#[test]
fn the_screen_is_told_what_was_asked_for() {
    let mut state = on_show("/old.pdf");
    assert_eq!(show_read(&mut state, "/a.pdf".to_string(), false), ShowAction::Tell);
    assert_eq!(state.path.as_deref(), Some("/old.pdf"));
    assert_eq!(show_read(&mut state, "/a.pdf".to_string(), true), ShowAction::Tell);
    assert_eq!(state.path.as_deref(), Some("/a.pdf"));
    let event = show_event(request(Some("a.pdf"), 7));
    assert!(matches!(event, Event::PdfShow { file_name: Some(n), page: 7 } if n == "a.pdf"));
    assert!(matches!(show_event(request(None, 0)), Event::PdfShow { file_name: None, page: 0 }));
}

#[test]
fn a_page_is_confirmed_and_passed_on() {
    let (event, result) = get_page_handler(PageParams { page: 12 });
    assert!(matches!(event, Event::PageChange(12)));
    assert_eq!(event.name(), "page_change");
    assert_eq!(result.page, 12);
}

fn text_of(response: &HttpResponse) -> &str {
    match &response.body {
        Body::Text(text) => text,
        Body::Bytes(_) => panic!("not a text"),
    }
}

#[test]
fn the_pdf_is_served() {
    let response = get_pdf_handler(&on_show("/a.pdf"), Ok(vec![1, 2, 3]));
    assert_eq!(response.status, 200);
    let headers: Vec<(&str, &str)> =
        response.headers.iter().map(|h| (h.name.as_str(), h.value.as_str())).collect();
    assert_eq!(headers, [("Content-Type", "application/pdf"), ("Content-Length", "3")]);
    assert!(matches!(response.body, Body::Bytes(b) if b == [1, 2, 3]));
}

#[test]
fn a_missing_pdf_is_not_found() {
    for read in [Ok(vec![1]), Err("x".to_string())] {
        let response = get_pdf_handler(&PdfState::new(), read);
        assert_eq!((response.status, text_of(&response)), (404, "No PDF loaded"));
        assert!(response.headers.is_empty());
    }
}

#[test]
fn an_unreadable_pdf_is_an_error() {
    let response = get_pdf_handler(&on_show("/a.pdf"), Err("no such file".to_string()));
    assert_eq!((response.status, text_of(&response)), (500, "Read error: no such file"));
    assert!(response.headers.is_empty());
}

#[test]
fn events_have_their_names() {
    assert_eq!(Event::WsStatus("x".to_string()).name(), "ws_status");
    assert_eq!(Event::WsDataSynced(3).name(), "ws_data_synced");
}
