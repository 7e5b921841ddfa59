use nexus_supervisor::paths::{basename, join_path, trim_blanks};

fn bytes(s: &[u8]) -> Vec<u8> {
    s.to_vec()
}

#[test]
fn basename_takes_the_part_after_the_last_separator() {
    assert_eq!(basename(&bytes(b"C:\\old\\machine\\creds.json")), bytes(b"creds.json"));
    assert_eq!(basename(&bytes(b"/a/b/c.txt")), bytes(b"c.txt"));
    assert_eq!(basename(&bytes(b"mixed\\conv/entions\\name")), bytes(b"name"));
}

#[test]
fn basename_of_a_bare_name_is_the_name() {
    assert_eq!(basename(&bytes(b"creds.json")), bytes(b"creds.json"));
}

#[test]
fn basename_after_a_trailing_separator_is_empty() {
    assert_eq!(basename(&bytes(b"/a/b/")), bytes(b""));
    assert_eq!(basename(&bytes(b"")), bytes(b""));
}

#[test]
fn trim_blanks_drops_leading_spaces_and_tabs_only() {
    assert_eq!(trim_blanks(&bytes(b"  \t x y ")), bytes(b"x y "));
    assert_eq!(trim_blanks(&bytes(b"xy")), bytes(b"xy"));
    assert_eq!(trim_blanks(&bytes(b"")), bytes(b""));
}

#[test]
fn join_path_inserts_one_slash() {
    assert_eq!(join_path(&bytes(b"/data/tunnel-config"), &bytes(b"creds.json")), bytes(b"/data/tunnel-config/creds.json"));
}
