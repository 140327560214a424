use spectecle::cache::{Cache, ScannedFile};
use spectecle::library::{Library, State};

#[test]
fn library_switches_to_an_imported_root() {
    let mut lib = Library::new();
    assert!(!lib.has_lib());
    assert_eq!(lib.get_open_lib(), None);
    lib.add_lib_and_switch("/books".to_string());
    lib.add_lib_and_switch("/more".to_string());
    assert!(lib.has_lib());
    assert_eq!(lib.get_open_lib(), Some("/more".to_string()));
    assert_eq!(lib.libraries(), &vec!["/books".to_string(), "/more".to_string()]);
}

#[test]
fn state_without_library_shows_nothing() {
    let mut state = State::new("/support".to_string(), Library::new(), None);
    assert!(!state.has_lib());
    assert!(state.get_book_data().is_empty());
    assert!(state.refresh_cache(false, &vec![]).is_none());
}

#[test]
fn state_refreshes_the_imported_library() {
    let mut state = State::new("/support".to_string(), Library::new(), None);
    state.import_lib("/books".to_string(), Cache::new("/books"));
    assert!(state.has_lib());
    let scan = vec![ScannedFile { relative_path: "x.epub".to_string(), last_modified: 5 }];
    let plan = state.refresh_cache(false, &scan).unwrap();
    assert_eq!(plan.index, vec![0]);
    let due = state.index_file(&scan[0], None);
    assert!(due.is_empty());
    assert!(state.flush_covers().is_empty());
    assert!(state.get_book_data().is_empty());
    let plan = state.refresh_cache(true, &scan).unwrap();
    assert_eq!(plan.index, vec![0]);
}
