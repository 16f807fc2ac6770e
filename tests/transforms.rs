use uwu_text::clipboard::{ClipboardError, MemoryClipboard};
use uwu_text::sarcasm::{invert_case, sarcasm, sarcasm_with};
use uwu_text::segments::transform_segments;
use uwu_text::session::Session;
use uwu_text::urls::UrlMatcher;
use uwuifier::uwuify_str_sse;

fn matcher() -> UrlMatcher {
    UrlMatcher::new().expect("the URL pattern compiles")
}

#[test]
fn empty_input_gives_empty_output() {
    assert_eq!(matcher().uwuify(""), "");
    assert_eq!(transform_segments("", &vec![]), "");
}

#[test]
fn text_without_urls_is_mangled_whole() {
    let m = matcher();
    assert_eq!(m.uwuify("hello world"), "hewwo wowwd");
    let s = "the quick brown fox, really. no links here!";
    assert_eq!(m.uwuify(s), uwuify_str_sse(s));
    assert!(m.url_spans(s).is_empty());
}

#[test]
fn lone_url_is_unchanged() {
    let m = matcher();
    assert_eq!(m.uwuify("http://a.com"), "http://a.com");
    assert_eq!(m.uwuify("https://www.example.org/path?q=1#x"), "https://www.example.org/path?q=1#x");
}

#[test]
fn adjacent_urls_keep_order_and_mangle_the_gap() {
    let m = matcher();
    let s = "http://a.com http://b.com";
    assert_eq!(m.url_spans(s), vec![(0, 12), (13, 25)]);
    let expected = format!("http://a.com{}http://b.com", uwuify_str_sse(" "));
    assert_eq!(m.uwuify(s), expected);
}

#[test]
fn url_in_the_middle_is_kept() {
    let m = matcher();
    let s = "hello http://example.com/really world";
    assert_eq!(m.url_spans(s), vec![(6, 31)]);
    let expected = format!(
        "{}http://example.com/really{}",
        uwuify_str_sse("hello "),
        uwuify_str_sse(" world")
    );
    assert_eq!(m.uwuify(s), expected);
    assert!(m.uwuify(s).starts_with("hewwo "));
}

#[test]
fn segments_follow_given_spans() {
    let s = "hello XX world";
    let out = transform_segments(s, &vec![(6, 8)]);
    assert_eq!(out, format!("{}XX{}", uwuify_str_sse("hello "), uwuify_str_sse(" world")));
}

#[test]
fn segments_handle_multibyte_text() {
    let s = "héllo ✓ rare";
    let start = s.find('✓').unwrap();
    let end = start + '✓'.len_utf8();
    let out = transform_segments(s, &vec![(start, end)]);
    assert_eq!(out, format!("{}✓{}", uwuify_str_sse(&s[..start]), uwuify_str_sse(&s[end..])));
}

#[test]
fn invert_case_flips_letters() {
    assert_eq!(invert_case('a'), 'A');
    assert_eq!(invert_case('Z'), 'z');
    assert_eq!(invert_case('ß'), 'S');
    assert_eq!(invert_case('7'), '7');
}

#[test]
fn sarcasm_with_flips_only_chosen_letters() {
    assert_eq!(sarcasm_with("aB1 c", &vec![true, true, true, true, false]), "Ab1 c");
    assert_eq!(sarcasm_with("hello", &vec![false; 5]), "hello");
    assert_eq!(sarcasm_with("hello", &vec![true; 5]), "HELLO");
    assert_eq!(sarcasm_with("", &vec![]), "");
}

#[test]
fn sarcasm_twice_keeps_shape() {
    let s = "Hello, World! 123 ok?";
    let once = sarcasm(s);
    let twice = sarcasm(&once);
    for out in [&once, &twice] {
        assert_eq!(out.chars().count(), s.chars().count());
        for (a, b) in s.chars().zip(out.chars()) {
            if a.is_alphabetic() {
                assert_eq!(a.to_lowercase().next(), b.to_lowercase().next());
            } else {
                assert_eq!(a, b);
            }
        }
    }
}

#[test]
fn clipboard_reads_back_what_was_written() {
    let mut c = MemoryClipboard::new();
    assert_eq!(c.read(), Err(ClipboardError::Empty));
    assert_eq!(c.write("some text"), Ok(()));
    assert_eq!(c.read(), Ok("some text".to_string()));
    assert_eq!(c.write(""), Ok(()));
    assert_eq!(c.read(), Ok(String::new()));
}

#[test]
fn session_paste_copy_and_load() {
    let mut s = Session::new();
    assert_eq!(s.text(), "");
    s.paste(Some("pasted".to_string()));
    assert_eq!(s.copy(), "pasted");
    s.paste(None);
    assert_eq!(s.text(), "pasted");
    s.load_file(Some("from file".to_string()));
    assert_eq!(s.text(), "from file");
    s.load_file(None);
    assert_eq!(s.text(), "from file");
    s.set_text("typed".to_string());
    assert_eq!(s.copy(), "typed");
}

#[test]
fn session_transforms_replace_the_buffer() {
    let m = matcher();
    let mut s = Session::new();
    s.set_text("hello http://a.com".to_string());
    s.uwuify(&m);
    assert_eq!(s.text(), format!("{}http://a.com", uwuify_str_sse("hello ")));
    s.set_text("abc, def".to_string());
    s.sarcasm();
    assert_eq!(s.text().to_lowercase(), "abc, def");
    let mut e = Session::new();
    e.uwuify(&m);
    assert_eq!(e.text(), "");
}
