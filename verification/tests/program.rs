use xfce4_niri::program::{is_executable_mode, program_candidates, program_lookup, try_exec_candidates, ProgramLookup};

fn candidates(program: &str, path: Option<&str>) -> Vec<String> {
    program_candidates(program.as_bytes(), path.map(|it| it.as_bytes()))
        .into_iter()
        .map(|it| String::from_utf8(it).unwrap())
        .collect()
}

fn lookup(argv: Option<&[&str]>, path: Option<&str>) -> Option<Vec<String>> {
    let argv: Option<Vec<Vec<u8>>> = argv.map(|a| a.iter().map(|w| w.as_bytes().to_vec()).collect());
    match program_lookup(argv.as_deref(), path.map(|it| it.as_bytes())) {
        ProgramLookup::Keep => None,
        ProgramLookup::Probe(c) => Some(c.into_iter().map(|it| String::from_utf8(it).unwrap()).collect()),
    }
}

#[test]
fn is_program_wants_an_executable_file() {
    assert!(is_executable_mode(true, 0o755));
    assert!(!is_executable_mode(true, 0o644));
    assert!(!is_executable_mode(false, 0o755), "a directory is not a program");
}

#[test]
fn is_program_accepts_any_execute_bit() {
    assert!(is_executable_mode(true, 0o100));
    assert!(is_executable_mode(true, 0o010));
    assert!(is_executable_mode(true, 0o001));
}

#[test]
fn binary_exists_follows_a_path_without_looking_at_path_var() {
    assert_eq!(candidates("/opt/tools/runnable", Some("/usr/bin")), vec!["/opt/tools/runnable"]);
    // A relative name holding a `/` is a path too, so `PATH` is not searched.
    assert_eq!(candidates("./runnable", Some("/usr/bin")), vec!["./runnable"]);
}

#[test]
fn binary_exists_searches_every_path_element() {
    assert_eq!(
        candidates("runnable", Some("/d/first:/d/second")),
        vec!["/d/first/runnable", "/d/second/runnable"],
    );
    assert_eq!(candidates("runnable", Some("/d/first/")), vec!["/d/first/runnable"]);
}

#[test]
fn binary_exists_looks_at_the_parsed_program_only() {
    assert_eq!(
        lookup(Some(&["runnable", "--flag", "/missing/argument"]), Some("/d")),
        Some(vec!["/d/runnable".to_string()]),
    );
    assert_eq!(lookup(Some(&["with space", "--flag"]), Some("/d")), Some(vec!["/d/with space".to_string()]));
}

#[test]
fn binary_exists_keeps_what_it_cannot_parse() {
    assert_eq!(lookup(None, Some("/d")), None);
    assert_eq!(lookup(Some(&[]), Some("/d")), None);
}

#[test]
fn binary_exists_reads_an_empty_path_element_as_the_working_dir() {
    assert_eq!(candidates("runnable", Some(":/nowhere")), vec!["./runnable", "/nowhere/runnable"]);
}

#[test]
fn binary_exists_falls_back_to_a_default_path() {
    let fallback = vec!["/bin/sh", "/usr/bin/sh", "./sh"];

    assert_eq!(candidates("sh", None), fallback);
    assert_eq!(candidates("sh", Some("")), fallback);
}

#[test]
fn try_exec_joins_the_binary_onto_every_path_element() {
    assert_eq!(try_exec_candidates("sh", "/bin:/usr/bin/"), vec!["/bin/sh", "/usr/bin/sh"]);
    assert_eq!(try_exec_candidates("sh", ":/bin"), vec!["sh", "/bin/sh"]);
    assert_eq!(try_exec_candidates("/bin/sh", "/nowhere"), vec!["/bin/sh"]);
}
