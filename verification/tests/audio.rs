use midi_mixer::audio::{find_session, select_sessions, CoInitMode};

#[test]
fn keeps_first_session_per_process_with_a_name() {
    let infos: Vec<(u32, String)> = vec![
        (0, String::from("master")),
        (123, String::from("spotify")),
        (123, String::from("spotify")),
        (456, String::from("")),
        (789, String::from("browser")),
    ];
    assert_eq!(select_sessions(&infos), vec![0, 1, 4]);
}

#[test]
fn nameless_first_occurrence_still_blocks_its_process() {
    // The first session of process 7 has no name and is dropped, but it
    // still counts as that process's first occurrence, so the named
    // duplicate is dropped too.
    let infos: Vec<(u32, String)> = vec![(7, String::from("")), (7, String::from("game"))];
    assert_eq!(select_sessions(&infos), Vec::<usize>::new());
}

#[test]
fn select_sessions_of_empty_enumeration_is_empty() {
    assert_eq!(select_sessions(&Vec::new()), Vec::<usize>::new());
}

#[test]
fn finds_first_session_by_exact_name() {
    let names: Vec<String> = vec![
        String::from("master"),
        String::from("Spotify"),
        String::from("Spotify"),
    ];
    assert_eq!(find_session(&names, &String::from("Spotify")), Some(1));
    assert_eq!(find_session(&names, &String::from("master")), Some(0));
    assert_eq!(find_session(&names, &String::from("spotify")), None);
}

#[test]
fn coinit_mode_names_both_threading_models() {
    assert_ne!(CoInitMode::MultiThreaded, CoInitMode::ApartmentThreaded);
}
