use cppwatch::filters::{
    is_cpp_file, is_file_modification, is_process_report, is_stop_signal, Event,
    ExtenstionsFilter, FileEventKind, ModificationFilter, ProcessEnd, Signal, Tag,
};

fn ev(tags: Vec<Tag>) -> Event {
    Event { tags }
}

#[test]
fn classify_stop_signal_variants() {
    assert!(is_stop_signal(&Signal::Interrupt));
    assert!(is_stop_signal(&Signal::Terminate));
    assert!(!is_stop_signal(&Signal::Other));
}

#[test]
fn classify_process_report_presence() {
    assert!(is_process_report(&ev(vec![Tag::ProcessCompletion(Some(ProcessEnd::Success))])));
    assert!(is_process_report(&ev(vec![
        Tag::Path("a.c".to_string()),
        Tag::ProcessCompletion(None),
    ])));
    assert!(!is_process_report(&ev(vec![Tag::Path("a.c".to_string()), Tag::Other])));
    assert!(!is_process_report(&ev(vec![])));
}

#[test]
fn classify_file_modification_kinds() {
    assert!(is_file_modification(&ev(vec![Tag::FileEventKind(FileEventKind::ModifyData)])));
    assert!(is_file_modification(&ev(vec![Tag::FileEventKind(FileEventKind::Create)])));
    assert!(!is_file_modification(&ev(vec![Tag::FileEventKind(FileEventKind::Other)])));
    assert!(!is_file_modification(&ev(vec![Tag::Signal(Signal::Interrupt)])));
}

#[test]
fn classify_source_extensions_accepted() {
    for path in ["main.c", "hdr.h", "a.cpp", "b.hpp", "c.cc", "d.hh", "dir.x/e.b.cpp"] {
        assert!(
            is_cpp_file(&ev(vec![Tag::Path(path.to_string())])),
            "{} should be relevant",
            path
        );
    }
}

#[test]
fn classify_irrelevant_paths_rejected() {
    for path in ["main.rs", "Makefile.am", "note.txt", "trailing.", "a.cxx"] {
        assert!(
            !is_cpp_file(&ev(vec![Tag::Path(path.to_string())])),
            "{} should not be relevant",
            path
        );
    }
}

#[test]
fn classify_extension_is_whole_name_without_dot() {
    assert!(is_cpp_file(&ev(vec![Tag::Path("c".to_string())])));
    assert!(!is_cpp_file(&ev(vec![Tag::Path("noext".to_string())])));
}

#[test]
fn classify_extensions_filter_composition() {
    let filter = ExtenstionsFilter;
    let report = ev(vec![Tag::ProcessCompletion(Some(ProcessEnd::ExitError))]);
    assert!(filter.check_event(&report));
    let relevant = ev(vec![
        Tag::Path("main.c".to_string()),
        Tag::FileEventKind(FileEventKind::ModifyData),
    ]);
    assert!(filter.check_event(&relevant));
    let irrelevant = ev(vec![
        Tag::Path("main.rs".to_string()),
        Tag::FileEventKind(FileEventKind::ModifyData),
    ]);
    assert!(!filter.check_event(&irrelevant));
    let no_kind = ev(vec![Tag::Path("main.c".to_string())]);
    assert!(!filter.check_event(&no_kind));
}

#[test]
fn classify_modification_filter_ignores_path() {
    let filter = ModificationFilter;
    let irrelevant = ev(vec![
        Tag::Path("main.rs".to_string()),
        Tag::FileEventKind(FileEventKind::ModifyData),
    ]);
    assert!(filter.check_event(&irrelevant));
    let silent = ev(vec![Tag::Path("main.rs".to_string())]);
    assert!(!filter.check_event(&silent));
}
