use pdf_link::path::{file_path, target_path, FILES_DIR};
use pdf_link::sync::{handle_ws_data, RemoteFile, SyncAction, SyncEvent, SyncSession};

fn file(name: &str) -> RemoteFile {
    RemoteFile { name: name.to_string(), url: format!("https://server/{}", name), format: "pdf".to_string() }
}

fn start(names: &[&str]) -> SyncSession {
    handle_ws_data(Some(names.iter().map(|n| file(n)).collect())).unwrap()
}

#[test]
fn nothing_is_done_about_an_empty_or_unreadable_list() {
    assert!(handle_ws_data(None).is_none());
    assert!(handle_ws_data(Some(Vec::new())).is_none());
}

#[test]
fn a_present_file_is_touched_and_counted() {
    let s = start(&["a.pdf"]);
    assert_eq!(s.action(), SyncAction::Check(0));
    assert_eq!(s.current().unwrap().name, "a.pdf");
    let s = s.step(SyncEvent::Exists(true));
    assert_eq!(s.action(), SyncAction::Touch(0));
    let s = s.step(SyncEvent::Touched);
    assert_eq!(s.action(), SyncAction::Rescan);
    assert!(s.current().is_none());
    let s = s.step(SyncEvent::Rescanned);
    assert_eq!(s.action(), SyncAction::Announce(1));
    let s = s.step(SyncEvent::Announced);
    assert_eq!(s.action(), SyncAction::Nothing);
}

#[test]
fn a_missing_file_is_fetched_and_stored() {
    let s = start(&["a.pdf"]).step(SyncEvent::Exists(false));
    assert_eq!(s.action(), SyncAction::Fetch(0));
    let s = s.step(SyncEvent::Responded(200));
    assert_eq!(s.action(), SyncAction::Receive(0));
    let s = s.step(SyncEvent::Received);
    assert_eq!(s.action(), SyncAction::Store(0));
    let s = s.step(SyncEvent::Stored).step(SyncEvent::Rescanned);
    assert_eq!(s.action(), SyncAction::Announce(1));
}

#[test]
fn every_failure_leaves_the_file_out_and_goes_on() {
    let failures: [&[SyncEvent]; 5] = [
        &[SyncEvent::RequestFailed],
        &[SyncEvent::Responded(404)],
        &[SyncEvent::Responded(200), SyncEvent::ReceiveFailed],
        &[SyncEvent::Responded(200), SyncEvent::Received, SyncEvent::StoreFailed],
        &[SyncEvent::Responded(500)],
    ];
    for failure in failures {
        let mut s = start(&["a.pdf", "b.pdf"]).step(SyncEvent::Exists(false));
        for event in failure {
            s = s.step(*event);
        }
        assert_eq!(s.action(), SyncAction::Check(1));
        assert_eq!(s.current().unwrap().url, "https://server/b.pdf");
        let s = s.step(SyncEvent::Exists(true)).step(SyncEvent::Touched).step(SyncEvent::Rescanned);
        assert_eq!(s.action(), SyncAction::Announce(1));
    }
}

#[test]
fn success_is_a_code_from_200_to_299() {
    for code in 0..=1000u16 {
        let s = start(&["a"]).step(SyncEvent::Exists(false)).step(SyncEvent::Responded(code));
        let expected = if (200..300).contains(&code) { SyncAction::Receive(0) } else { SyncAction::Rescan };
        assert_eq!(s.action(), expected, "code {}", code);
    }
}

#[test]
fn the_count_is_of_the_files_at_hand() {
    let names: Vec<String> = (0..100).map(|i| format!("{}.pdf", i)).collect();
    let names: Vec<&str> = names.iter().map(|n| n.as_str()).collect();
    let mut s = start(&names);
    for i in 0..100 {
        assert_eq!(s.action(), SyncAction::Check(i));
        s = match i % 4 {
            0 => s.step(SyncEvent::Exists(true)).step(SyncEvent::Touched),
            1 => s.step(SyncEvent::Exists(false)).step(SyncEvent::RequestFailed),
            2 => s.step(SyncEvent::Exists(false)).step(SyncEvent::Responded(302)),
            _ => s
                .step(SyncEvent::Exists(false))
                .step(SyncEvent::Responded(204))
                .step(SyncEvent::Received)
                .step(SyncEvent::Stored),
        };
    }
    assert_eq!(s.action(), SyncAction::Rescan);
    assert_eq!(s.step(SyncEvent::Rescanned).action(), SyncAction::Announce(50));
}

#[test]
fn events_that_do_not_fit_change_nothing() {
    let s = start(&["a"]).step(SyncEvent::Stored).step(SyncEvent::Rescanned).step(SyncEvent::Announced);
    assert_eq!(s.action(), SyncAction::Check(0));
    let s = s.step(SyncEvent::Exists(true)).step(SyncEvent::Received);
    assert_eq!(s.action(), SyncAction::Touch(0));
}

#[test]
fn files_go_into_the_directory() {
    assert_eq!(target_path("a.pdf"), Some(format!("{}/a.pdf", FILES_DIR)));
    assert_eq!(target_path("..."), Some(format!("{}/...", FILES_DIR)));
    assert_eq!(target_path("a\\b"), Some(format!("{}/a\\b", FILES_DIR)));
    for name in ["", ".", "./a.pdf", "a/b", "a/", "a//b", "logs/x.pdf", "a/..", "a/../b.pdf", "../files/a.pdf"] {
        assert_eq!(target_path(name), Some(format!("{}/{}", FILES_DIR, name)), "{}", name);
    }
    for name in ["..", "/", "/sdcard/x.pdf", "../x.pdf", "a/../../x.pdf", "../files2/a.pdf", "../../files"] {
        assert_eq!(target_path(name), None, "{}", name);
    }
}

#[test]
fn a_path_from_the_root_stands_for_itself() {
    let inside = format!("{}/a.pdf", FILES_DIR);
    assert_eq!(target_path(&inside), Some(inside.clone()));
    assert_eq!(target_path(FILES_DIR), Some(FILES_DIR.to_string()));
    let around = format!("/sdcard/../..{}/logs/../a.pdf", FILES_DIR);
    assert_eq!(target_path(&around), Some(around.clone()));
    assert_eq!(target_path(&format!("{}/../a.pdf", FILES_DIR)), None);
    assert_eq!(target_path(&format!("{}2/a.pdf", FILES_DIR)), None);
}

#[test]
fn targets_agree_with_paths() {
    let parts = ["", ".", "..", "a", "files", "/", "..a"];
    for a in parts {
        for b in parts {
            for c in parts {
                let name = format!("{}/{}/{}", a, b, c);
                let joined = std::path::Path::new(FILES_DIR).join(&name);
                let mut place = std::path::PathBuf::new();
                for component in joined.components() {
                    match component {
                        std::path::Component::ParentDir => {
                            place.pop();
                        }
                        other => place.push(other),
                    }
                }
                let expected = if place.starts_with(FILES_DIR) {
                    Some(joined.to_str().unwrap().to_string())
                } else {
                    None
                };
                assert_eq!(target_path(&name), expected, "{}", name);
            }
        }
    }
}

#[test]
fn only_a_plain_name_is_right_inside_the_directory() {
    assert_eq!(file_path("a.pdf"), Some(format!("{}/a.pdf", FILES_DIR)));
    assert_eq!(file_path("..a"), Some(format!("{}/..a", FILES_DIR)));
    for name in ["", ".", "..", "/", "a/b", "a/", "/a"] {
        assert_eq!(file_path(name), None, "{}", name);
    }
    assert_eq!(FILES_DIR, "/storage/emulated/0/Android/data/com.pdf_link_demo.app/files");
}

#[test]
fn files_below_the_directory_are_fetched_and_counted() {
    let s = start(&["logs/x.pdf", "./a.pdf", ""]);
    assert_eq!((s.action(), s.target()), (SyncAction::Check(0), Some(format!("{}/logs/x.pdf", FILES_DIR))));
    let s = s.step(SyncEvent::Exists(false)).step(SyncEvent::Responded(200)).step(SyncEvent::Received);
    assert_eq!((s.action(), s.target()), (SyncAction::Store(0), Some(format!("{}/logs/x.pdf", FILES_DIR))));
    let s = s.step(SyncEvent::Stored);
    assert_eq!((s.action(), s.target()), (SyncAction::Check(1), Some(format!("{}/./a.pdf", FILES_DIR))));
    let s = s.step(SyncEvent::Exists(true)).step(SyncEvent::Touched);
    assert_eq!((s.action(), s.target()), (SyncAction::Check(2), Some(format!("{}/", FILES_DIR))));
    let s = s.step(SyncEvent::Exists(true)).step(SyncEvent::Touched);
    assert_eq!(s.action(), SyncAction::Rescan);
    assert_eq!(s.step(SyncEvent::Rescanned).action(), SyncAction::Announce(3));
}

#[test]
fn a_file_without_a_place_is_passed_over() {
    let s = start(&["../x.pdf", "a.pdf", "/sdcard/y.pdf"]);
    assert_eq!((s.action(), s.target()), (SyncAction::Skip(0), None));
    assert_eq!(s.current().unwrap().name, "../x.pdf");
    let s = s.step(SyncEvent::Exists(true)).step(SyncEvent::Skipped);
    assert_eq!(s.action(), SyncAction::Check(1));
    assert_eq!(s.target(), Some(format!("{}/a.pdf", FILES_DIR)));
    let s = s.step(SyncEvent::Exists(false)).step(SyncEvent::Responded(200)).step(SyncEvent::Received);
    assert_eq!(s.action(), SyncAction::Store(1));
    assert_eq!(s.target(), Some(format!("{}/a.pdf", FILES_DIR)));
    let s = s.step(SyncEvent::Stored);
    assert_eq!(s.action(), SyncAction::Skip(2));
    let s = s.step(SyncEvent::Skipped);
    assert_eq!((s.action(), s.target()), (SyncAction::Rescan, None));
    assert_eq!(s.step(SyncEvent::Rescanned).action(), SyncAction::Announce(1));
}
