use env_inject::inject::{transform, Injector};
use env_inject::inject_environment_script_tag;
use env_inject::FrontedEnvironment;

fn env_of(pairs: &[(&str, &str)]) -> FrontedEnvironment {
    FrontedEnvironment(
        pairs
            .iter()
            .map(|(k, v)| (k.to_string(), v.to_string()))
            .collect(),
    )
}

fn run_transform(input: &[u8], script: &[u8]) -> Vec<u8> {
    let mut out = Vec::new();
    transform(input, script, &mut out);
    out
}

fn run_chunked(chunks: &[&[u8]], script: &[u8]) -> Vec<u8> {
    let mut inj = Injector::new(script.to_vec());
    let mut out = Vec::new();
    for chunk in chunks {
        inj.feed(chunk, &mut out);
    }
    inj.end(&mut out);
    out
}

#[test]
fn no_head_passes_through() {
    let out = run_transform(b"<div>hi</div>", b"SCRIPT");
    assert_eq!(out, b"<div>hi</div>".to_vec());
}

#[test]
fn empty_input_passes_through() {
    let out = run_transform(b"", b"SCRIPT");
    assert_eq!(out, b"".to_vec());
}

#[test]
fn plain_head_tag_gets_injection() {
    let out = run_transform(b"<html><head><title>A</title></head></html>", b"S");
    assert_eq!(out, b"<html><head>S<title>A</title></head></html>".to_vec());
}

#[test]
fn head_tag_with_attribute_gets_injection() {
    let out = run_transform(b"<head attr=\"x\"><b></b>", b"S");
    assert_eq!(out, b"<head attr=\"x\">S<b></b>".to_vec());
}

#[test]
fn header_tag_does_not_match() {
    let out = run_transform(b"<header>t</header>", b"S");
    assert_eq!(out, b"<header>t</header>".to_vec());
}

#[test]
fn later_head_after_header_matches() {
    let out = run_transform(b"<header>t</header><head>x", b"S");
    assert_eq!(out, b"<header>t</header><head>Sx".to_vec());
}

#[test]
fn at_most_one_injection() {
    let out = run_transform(b"<head><head>", b"S");
    assert_eq!(out, b"<head>S<head>".to_vec());
}

#[test]
fn truncated_head_tag_is_flushed_without_injection() {
    let out = run_transform(b"<html><head cla", b"S");
    assert_eq!(out, b"<html><head cla".to_vec());
}

#[test]
fn input_ending_in_head_prefix_is_flushed() {
    let out = run_transform(b"abc<hea", b"S");
    assert_eq!(out, b"abc<hea".to_vec());
}

#[test]
fn input_ending_in_whole_pattern_is_flushed() {
    let out = run_transform(b"x<head", b"S");
    assert_eq!(out, b"x<head".to_vec());
}

#[test]
fn restart_after_partial_match() {
    let out = run_transform(b"<he<head>x", b"S");
    assert_eq!(out, b"<he<head>Sx".to_vec());
}

#[test]
fn chunked_input_matches_unsplit_input() {
    let whole: &[u8] = b"<html><head><title>A</title></head></html>";
    let script = b"S";
    let expected = run_transform(whole, script);
    let chunked = run_chunked(&[b"<htm", b"l><he", b"ad><title>A</title></head></html>"], script);
    assert_eq!(chunked, expected);
}

#[test]
fn byte_by_byte_matches_unsplit_input() {
    let whole: &[u8] = b"<html><head attr=\"x\">body</head>";
    let script = b"INJ";
    let expected = run_transform(whole, script);
    let mut inj = Injector::new(script.to_vec());
    let mut out = Vec::new();
    for b in whole {
        inj.feed(std::slice::from_ref(b), &mut out);
    }
    inj.end(&mut out);
    assert_eq!(out, expected);
}

#[test]
fn full_example_with_environment() {
    let env = env_of(&[("API_URL", "http://x")]);
    let input = b"<html><head><title>A</title></head><body></body></html>";
    let mut output = Vec::new();
    let r = inject_environment_script_tag(input, &mut output, &env);
    assert!(r.is_ok());
    let expected = "<html><head><script>\nwindow.API_URL = \"http://x\";\n</script><title>A</title></head><body></body></html>";
    assert_eq!(output, expected.as_bytes().to_vec());
}

#[test]
fn full_example_without_head_is_unchanged() {
    let env = env_of(&[("API_URL", "http://x")]);
    let input = b"<div>hi</div>";
    let mut output = Vec::new();
    let r = inject_environment_script_tag(input, &mut output, &env);
    assert!(r.is_ok());
    assert_eq!(output, input.to_vec());
}

#[test]
fn non_ascii_environment_value_round_trips() {
    let env = env_of(&[("K", "é")]);
    let input = b"<head>";
    let mut output = Vec::new();
    let r = inject_environment_script_tag(input, &mut output, &env);
    assert!(r.is_ok());
    let expected = "<head><script>\nwindow.K = \"é\";\n</script>";
    assert_eq!(output, expected.as_bytes().to_vec());
}
