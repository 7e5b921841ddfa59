use nexus_supervisor::config::{join_lines, patch_config, patch_line, split_lines};

fn bytes(s: &[u8]) -> Vec<u8> {
    s.to_vec()
}

#[test]
fn patch_line_rewrites_a_foreign_absolute_path() {
    let line = bytes(b"credential-file: C:\\old\\machine\\creds.json");
    let dir = bytes(b"/data/tunnel-config");
    let out = patch_line(&line, &dir);
    assert_eq!(out, bytes(b"credential-file: /data/tunnel-config/creds.json"));
}

#[test]
fn patch_line_keeps_a_line_without_the_directive() {
    let line = bytes(b"tunnel: my-tunnel");
    let dir = bytes(b"/data/tunnel-config");
    let out = patch_line(&line, &dir);
    assert_eq!(out, line);
}

#[test]
fn patch_line_keeps_indentation_before_the_directive() {
    let line = bytes(b"  credential-file: /home/someone/creds.json");
    let dir = bytes(b"/data/tunnel-config");
    let out = patch_line(&line, &dir);
    assert_eq!(out, bytes(b"  credential-file: /data/tunnel-config/creds.json"));
}

#[test]
fn patch_line_takes_the_basename_of_a_bare_file_name() {
    let line = bytes(b"credential-file:   creds.json");
    let dir = bytes(b"/data/tunnel-config");
    let out = patch_line(&line, &dir);
    assert_eq!(out, bytes(b"credential-file: /data/tunnel-config/creds.json"));
}

#[test]
fn patch_config_rewrites_only_the_directive_line() {
    let text = bytes(
        b"tunnel: my-tunnel\ncredential-file: C:\\old\\machine\\creds.json\nlogfile: /tmp/t.log\n",
    );
    let dir = bytes(b"/data/tunnel-config");
    let out = patch_config(&text, &dir);
    assert_eq!(
        out,
        bytes(
            b"tunnel: my-tunnel\ncredential-file: /data/tunnel-config/creds.json\nlogfile: /tmp/t.log\n",
        )
    );
}

#[test]
fn patch_config_without_directive_is_identity() {
    let text = bytes(b"a: 1\nb: 2\n\nc: 3");
    let dir = bytes(b"/data/tunnel-config");
    let out = patch_config(&text, &dir);
    assert_eq!(out, text);
}

#[test]
fn patch_config_keeps_crlf_line_ends_outside_the_value() {
    let text = bytes(b"a: 1\r\nb: 2\r\n");
    let dir = bytes(b"/data");
    let out = patch_config(&text, &dir);
    assert_eq!(out, text);
}

#[test]
fn patch_config_on_empty_text_is_empty() {
    let text = bytes(b"");
    let dir = bytes(b"/data");
    let out = patch_config(&text, &dir);
    assert_eq!(out, text);
}

#[test]
fn split_then_join_restores_the_text() {
    let text = bytes(b"first\nsecond\n\nfourth");
    let lines = split_lines(&text);
    assert_eq!(lines.len(), 4);
    assert_eq!(lines[0], bytes(b"first"));
    assert_eq!(lines[1], bytes(b"second"));
    assert_eq!(lines[2], bytes(b""));
    assert_eq!(lines[3], bytes(b"fourth"));
    let back = join_lines(&lines);
    assert_eq!(back, text);
}

#[test]
fn split_counts_a_trailing_line_feed_as_an_empty_last_line() {
    let text = bytes(b"only\n");
    let lines = split_lines(&text);
    assert_eq!(lines.len(), 2);
    assert_eq!(lines[0], bytes(b"only"));
    assert_eq!(lines[1], bytes(b""));
    assert_eq!(join_lines(&lines), text);
}
