use xbraceml::config::Config;
use xbraceml::convert::{Action, Converter, Warning};
use xbraceml::plugin::{DiscoveryError, Plugin};

fn config(long_empty: bool, disable_special_elements: bool, plugins: Vec<Plugin>) -> Config {
    Config {
        src: String::from("-"),
        dst: String::from("-"),
        long_empty,
        disable_special_elements,
        plugins,
    }
}

fn plugin(path: &str, listing: &str) -> Plugin {
    Plugin::init(String::from(path), listing.as_bytes()).unwrap()
}

/// Drives a conversion, answering plugin requests with `render` and file
/// requests from `files`; returns the output and the warnings seen.
fn drive(
    input: &str,
    cfg: &Config,
    render: &dyn Fn(usize, &[u8], &[u8], &[u8]) -> Vec<u8>,
    files: &dyn Fn(&[u8]) -> Option<Vec<u8>>,
) -> (String, Vec<(Warning, usize)>) {
    let mut conv = Converter::new(input.as_bytes().to_vec());
    let mut warnings = Vec::new();
    loop {
        match conv.step(cfg) {
            Action::Continue => {}
            Action::Done => break,
            Action::Warn(w, at) => warnings.push((w, at)),
            Action::Plugin(k, n, a, c) => {
                let out = render(k, &n, &a, &c);
                conv.resume(&out);
            }
            Action::Include(path, process) => {
                let text = files(&path).unwrap_or_default();
                let text = if process {
                    let s = String::from_utf8(text).unwrap();
                    let (converted, mut inner) = drive(&s, cfg, render, files);
                    warnings.append(&mut inner);
                    converted.into_bytes()
                } else {
                    text
                };
                conv.resume(&text);
            }
        }
    }
    (String::from_utf8(conv.into_doc()).unwrap(), warnings)
}

fn no_plugin(_: usize, _: &[u8], _: &[u8], _: &[u8]) -> Vec<u8> {
    panic!("no plugin is registered")
}

fn no_files(_: &[u8]) -> Option<Vec<u8>> {
    None
}

fn convert_plain(input: &str, long_empty: bool, disable_special: bool) -> String {
    let cfg = config(long_empty, disable_special, Vec::new());
    let (out, warnings) = drive(input, &cfg, &no_plugin, &no_files);
    assert!(warnings.is_empty());
    out
}

#[test]
fn element_with_content_renders_as_tag_pair() {
    assert_eq!(convert_plain("\\b{hello}", false, false), "<b>hello</b>");
}

#[test]
fn empty_element_self_closes() {
    assert_eq!(convert_plain("\\b{}", false, false), "<b/>");
}

#[test]
fn empty_element_long_form() {
    assert_eq!(convert_plain("\\b{}", true, false), "<b></b>");
}

#[test]
fn nested_elements() {
    assert_eq!(
        convert_plain("x \\a{\\b{y} \\c{}} z", false, false),
        "x <a><b>y</b> <c/></a> z"
    );
}

#[test]
fn attributes_stay_in_the_opening_tag() {
    assert_eq!(convert_plain("\\a k=v{c}", false, false), "<a k=v>c</a>");
    assert_eq!(convert_plain("\\a k=v{}", false, false), "<a k=v/>");
}

#[test]
fn special_literal_open() {
    assert_eq!(convert_plain("\\$o{}", false, false), "{");
}

#[test]
fn special_literals() {
    assert_eq!(convert_plain("a\\$c{}b", false, false), "a}b");
    assert_eq!(convert_plain("a\\$s{}b", false, false), "a\\b");
    assert_eq!(convert_plain("a\\${a comment}b", false, false), "ab");
    assert_eq!(convert_plain("\\${}\\$o{}", false, false), "{");
}

#[test]
fn special_forms_disabled_fall_back_to_tags() {
    assert_eq!(convert_plain("\\$o{}", false, true), "<$o/>");
    assert_eq!(convert_plain("\\${x}", false, true), "<$>x</$>");
}

#[test]
fn special_forms_disabled_go_to_plugins() {
    let cfg = config(false, true, vec![plugin("dollar", "$o")]);
    let render = |k: usize, n: &[u8], _: &[u8], _: &[u8]| {
        assert_eq!(k, 0);
        assert_eq!(n, b"$o");
        b"P".to_vec()
    };
    let (out, _) = drive("\\$o{}", &cfg, &render, &no_files);
    assert_eq!(out, "P");
}

#[test]
fn plugin_output_replaces_element() {
    let cfg = config(false, false, vec![plugin("greeter", "greet")]);
    let render = |_: usize, n: &[u8], a: &[u8], c: &[u8]| {
        assert_eq!(n, b"greet");
        assert_eq!(a, b"");
        c.to_ascii_uppercase()
    };
    let (out, warnings) = drive("say \\greet{hi}!", &cfg, &render, &no_files);
    assert_eq!(out, "say HI!");
    assert!(warnings.is_empty());
}

#[test]
fn plugin_receives_attributes() {
    let cfg = config(false, false, vec![plugin("p", "img")]);
    let render = |_: usize, n: &[u8], a: &[u8], c: &[u8]| {
        assert_eq!(n, b"img");
        assert_eq!(a, b"w=1 h=2");
        assert_eq!(c, b"cat.png");
        b"<img/>".to_vec()
    };
    let (out, _) = drive("\\img w=1 h=2{cat.png}", &cfg, &render, &no_files);
    assert_eq!(out, "<img/>");
}

#[test]
fn plugin_output_is_not_rescanned() {
    let cfg = config(false, false, vec![plugin("p", "raw")]);
    let render = |_: usize, _: &[u8], _: &[u8], _: &[u8]| b"\\x{y}".to_vec();
    let (out, _) = drive("\\raw{}\\b{}", &cfg, &render, &no_files);
    assert_eq!(out, "\\x{y}<b/>");
}

#[test]
fn first_registered_plugin_wins() {
    let cfg = config(false, false, vec![plugin("one", "a greet"), plugin("two", "greet")]);
    let render = |k: usize, _: &[u8], _: &[u8], _: &[u8]| {
        if k == 0 { b"first".to_vec() } else { b"second".to_vec() }
    };
    let (out, _) = drive("\\greet{x}", &cfg, &render, &no_files);
    assert_eq!(out, "first");
    assert_eq!(cfg.claimant(b"greet"), Some(0));
    assert_eq!(cfg.claimant(b"a"), Some(0));
    assert_eq!(cfg.claimant(b"b"), None);
}

#[test]
fn unmatched_close_warns_and_stays() {
    let cfg = config(false, false, Vec::new());
    let (out, warnings) = drive("a}b", &cfg, &no_plugin, &no_files);
    assert_eq!(out, "a}b");
    assert_eq!(warnings, vec![(Warning::UnmatchedClose, 1)]);
}

#[test]
fn stray_and_duplicate_open_warn() {
    let cfg = config(false, false, Vec::new());
    let (out, warnings) = drive("{\\a{x{y}", &cfg, &no_plugin, &no_files);
    assert_eq!(out, "{<a>x{y</a>");
    assert_eq!(warnings, vec![(Warning::StrayOpen, 0), (Warning::DuplicateOpen, 5)]);
}

#[test]
fn close_before_body_warns() {
    let cfg = config(false, false, Vec::new());
    let (out, warnings) = drive("\\a}{x}", &cfg, &no_plugin, &no_files);
    assert_eq!(out, "<a}>x</a}>");
    assert_eq!(warnings, vec![(Warning::CloseBeforeBody, 2)]);
}

#[test]
fn verbatim_markers_are_deleted() {
    assert_eq!(convert_plain("a\\%b\\%c", false, false), "abc");
    assert_eq!(convert_plain("\\%\\b{x}\\%", false, false), "<b>x</b>");
}

#[test]
fn unterminated_verbatim_warns() {
    let cfg = config(false, false, Vec::new());
    let (out, warnings) = drive("a\\%b", &cfg, &no_plugin, &no_files);
    assert_eq!(out, "ab");
    assert_eq!(warnings, vec![(Warning::UnterminatedVerbatim, 1)]);
}

fn files(path: &[u8]) -> Option<Vec<u8>> {
    if path == b"part.xb" {
        Some(b"\\i{in}".to_vec())
    } else {
        None
    }
}

#[test]
fn inclusion_without_process_is_verbatim() {
    let cfg = config(false, false, Vec::new());
    let (out, _) = drive("<\\$i{part.xb}>", &cfg, &no_plugin, &files);
    assert_eq!(out, "<\\i{in}>");
}

#[test]
fn inclusion_with_process_is_converted() {
    let cfg = config(false, false, Vec::new());
    let (out, _) = drive("<\\$i a process{part.xb}>\\b{}", &cfg, &no_plugin, &files);
    assert_eq!(out, "<<i>in</i>><b/>");
}

#[test]
fn inclusion_of_missing_file_is_empty() {
    let cfg = config(false, false, Vec::new());
    let (out, _) = drive("a\\$i{missing}b", &cfg, &no_plugin, &files);
    assert_eq!(out, "ab");
}

#[test]
fn inclusion_action_carries_path_and_flag() {
    let cfg = config(false, false, Vec::new());
    let mut conv = Converter::new(b"\\$i processing process{f.txt}".to_vec());
    let mut seen = None;
    loop {
        match conv.step(&cfg) {
            Action::Include(p, process) => {
                seen = Some((p, process));
                break;
            }
            Action::Done => break,
            _ => {}
        }
    }
    assert_eq!(seen, Some((b"f.txt".to_vec(), true)));
    assert!(conv.is_parked());
    conv.resume(b"T");
    assert!(!conv.is_parked());
    assert_eq!(conv.doc(), &b"T".to_vec());
}

#[test]
fn plugin_discovery_splits_on_whitespace() {
    let p = plugin("cmd", "  a b\tc\n");
    assert_eq!(p.path, "cmd");
    assert!(p.handles(b"a"));
    assert!(p.handles(b" b "));
    assert!(p.handles(b"c"));
    assert!(!p.handles(b"d"));
    assert!(!p.handles(b"a b"));
}

#[test]
fn plugin_discovery_without_names_fails() {
    let r = Plugin::init(String::from("cmd"), b"  \n ");
    assert_eq!(r.err(), Some(DiscoveryError::NoElements));
}

#[test]
fn plugin_request_layout() {
    assert_eq!(Plugin::request(b"n", b"a b", b"c"), b"n\r\n\r\na b\r\n\r\nc".to_vec());
    assert_eq!(Plugin::request(b"n", b"", b""), b"n\r\n\r\n\r\n\r\n".to_vec());
}

#[test]
fn every_step_but_the_last_makes_progress() {
    let cfg = config(false, false, Vec::new());
    let mut conv = Converter::new(b"\\a{\\b{}}}{\\%".to_vec());
    let mut steps = 0;
    loop {
        match conv.step(&cfg) {
            Action::Done => break,
            _ => steps += 1,
        }
        assert!(steps < 100);
    }
    assert_eq!(conv.into_doc(), b"<a><b/></a>}{".to_vec());
}
