use warn_marker::policy::escalate;
use warn_marker::policy::tag_warning;
use warn_marker::policy::try_encode;
use warn_marker::DefaultTransform;
use warn_marker::RewriteTransform;
use warn_marker::TagTransform;
use warn_marker::Transform;

#[test]
fn encoding_is_standard_base64_with_padding() {
    assert_eq!(try_encode("warn"), Some(String::from("d2Fybg==")));
    assert_eq!(try_encode(""), Some(String::new()));
    assert_eq!(try_encode("héllo warn"), Some(String::from("aMOpbGxvIHdhcm4=")));
}

#[test]
fn error_is_encoded_once() {
    let out = DefaultTransform.transform_error(String::from("warn"));
    assert_eq!(out, "base64-encoded log: d2Fybg==");
    let out = DefaultTransform.transform_error(String::from("an error with warn inside"));
    assert_eq!(out, "base64-encoded log: YW4gZXJyb3Igd2l0aCB3YXJuIGluc2lkZQ==");
}

#[test]
fn error_is_encoded_twice_where_once_leaves_the_marker() {
    let out = DefaultTransform.transform_error(String::from("X\u{4}Mwarn"));
    assert_eq!(out, "base64-encoded-twice log: V0FSTmQyRnliZz09");
}

#[test]
fn escalate_takes_the_first_encoding_without_marker() {
    let out = escalate("msg", Some(String::from("abc")), None);
    assert_eq!(out, "base64-encoded log: abc");
    let out = escalate("msg", Some(String::from("abc")), Some(String::from("def")));
    assert_eq!(out, "base64-encoded log: abc");
}

#[test]
fn escalate_takes_the_second_encoding_where_the_first_holds_the_marker() {
    let out = escalate("msg", Some(String::from("aWARNa")), Some(String::from("def")));
    assert_eq!(out, "base64-encoded-twice log: def");
}

#[test]
fn escalate_falls_back_to_the_message() {
    let out = escalate("a warn", Some(String::from("xWarn")), Some(String::from("warnx")));
    assert_eq!(out, "The following error log has to be logged as Warning: \na warn");
    let out = escalate("a warn", Some(String::from("xWarn")), None);
    assert_eq!(out, "The following error log has to be logged as Warning: \na warn");
    let out = escalate("a warn", None, None);
    assert_eq!(out, "The following error log has to be logged as Warning: \na warn");
}

#[test]
fn warning_gets_its_tag() {
    assert_eq!(DefaultTransform.transform_warning(String::from("disk is full")), "warning: disk is full");
    assert_eq!(RewriteTransform.transform_warning(String::from("")), "warning: ");
    assert_eq!(tag_warning("x"), "warning: x");
}

#[test]
fn rewriting_policy_rewrites_an_error_in_place() {
    assert_eq!(RewriteTransform.transform_error(String::from("a Warn here")), "a Wa𝗋n here");
    assert_eq!(RewriteTransform.transform_error(String::from("nothing")), "nothing");
}

#[test]
fn tagging_policy_leaves_an_error_alone() {
    assert_eq!(TagTransform.transform_error(String::from("a warn here")), "a warn here");
    assert_eq!(TagTransform.transform_warning(String::from("low disk")), "warning: low disk");
}
