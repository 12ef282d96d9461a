use apimock::template::{functions, java_to_strftime, render, time_format, try_render};

fn no_float(_a: Option<String>, _b: Option<String>, _c: Option<String>) -> String {
    "0.50".to_owned()
}

#[test]
fn java_patterns_become_strftime() {
    assert_eq!(java_to_strftime("yyyy-MM-dd HH:mm:ss"), "%Y-%m-%d %H:%M:%S");
    assert_eq!(java_to_strftime("yyyyMMdd"), "%Y%m%d");
    assert_eq!(java_to_strftime("HH:mm:SS"), "%H:%M:%S");
    assert_eq!(java_to_strftime("plain"), "plain");
    // A token's replacement is never read again: `MM` then `mm`.
    assert_eq!(java_to_strftime("MMmm"), "%m%M");
    assert_eq!(java_to_strftime("yyyyy"), "%Yy");
    assert_eq!(java_to_strftime("ss.SS"), "%S.%S");
}

#[test]
fn plain_text_renders_to_itself() {
    for body in ["hello", "", "{ \"a\": 1 }", "a { b } c", "}}", "{x}"] {
        assert_eq!(render(body, &no_float), body);
    }
}

#[test]
fn unknown_calls_stay_and_unclosed_braces_stay() {
    assert_eq!(render("{{unknown}}", &no_float), "{{unknown}}");
    assert_eq!(render("a{{b", &no_float), "a{{b");
    assert_eq!(render("{{", &no_float), "{{");
    assert_eq!(render("x{{nope:1}}y", &no_float), "x{{nope:1}}y");
}

#[test]
fn random_int_in_range() {
    assert_eq!(render("{{randomInt:5:5}}", &no_float), "5");
    assert_eq!(render("n={{randomInt:-3:-3}}", &no_float), "n=-3");
    for _ in 0..20 {
        let v: i64 = render("{{randomInt:1:3}}", &no_float).parse().unwrap();
        assert!((1..=3).contains(&v));
        let d: i64 = render("{{randomInt}}", &no_float).parse().unwrap();
        assert!((0..=100).contains(&d));
    }
}

#[test]
fn empty_random_int_range_is_refused() {
    assert_eq!(try_render("{{randomInt:5:1}}", &no_float), None);
    assert_eq!(try_render("ok", &no_float), Some("ok".to_owned()));
}

#[test]
fn random_strings() {
    let s = render("{{randomString:12}}", &no_float);
    assert_eq!(s.chars().count(), 12);
    assert!(s.chars().all(|c| c.is_ascii_alphanumeric()));
    assert_eq!(render("{{randomString}}", &no_float).chars().count(), 10);
    let c = render("{{randomChinese:4}}", &no_float);
    assert_eq!(c.chars().count(), 4);
    assert!(c.chars().all(|ch| !ch.is_ascii()));
    assert_eq!(render("{{randomChinese}}", &no_float).chars().count(), 15);
}

#[test]
fn uuid_shape() {
    let u = render("{{uuid}}", &no_float);
    assert_eq!(u.len(), 36);
    let parts: Vec<&str> = u.split('-').collect();
    assert_eq!(parts.iter().map(|p| p.len()).collect::<Vec<_>>(), vec![8, 4, 4, 4, 12]);
    assert!(parts[2].starts_with('4'));
    assert_ne!(render("{{uuid}}", &no_float), u);
}

#[test]
fn random_float_uses_the_given_source() {
    fn fixed(a: Option<String>, b: Option<String>, c: Option<String>) -> String {
        format!("{:?}|{:?}|{:?}", a, b, c)
    }
    assert_eq!(render("{{randomFloat:1:2}}", &fixed), "Some(\"1\")|Some(\"2\")|None");
}

#[test]
fn dates_have_digits() {
    let d = render("{{date}}", &no_float);
    assert_eq!(d.len(), 8);
    assert!(d.chars().all(|c| c.is_ascii_digit()));
    let y = render("{{date:yyyy}}", &no_float);
    assert_eq!(y.len(), 4);
    assert_eq!(render("{{datetime}}", &no_float).len(), 14);
    assert_eq!(render("{{time}}", &no_float).len(), 6);
    let full: Vec<char> = render("{{datetime:yyyy-MM-dd HH:mm:ss}}", &no_float).chars().collect();
    assert_eq!(full.len(), 19);
    assert_eq!((full[4], full[7], full[10], full[13], full[16]), ('-', '-', ' ', ':', ':'));
}

#[test]
fn time_formats_of_calls() {
    assert_eq!(time_format("date"), Some("%Y%m%d".to_owned()));
    assert_eq!(time_format("time"), Some("%H%M%S".to_owned()));
    assert_eq!(time_format("datetime"), Some("%Y%m%d%H%M%S".to_owned()));
    assert_eq!(time_format("date:yyyy/MM"), Some("%Y/%m".to_owned()));
    // The format runs to the end of the call, colons included.
    assert_eq!(time_format("datetime:yyyy-MM-dd HH:mm:ss"), Some("%Y-%m-%d %H:%M:%S".to_owned()));
    assert_eq!(time_format("time:HH:mm"), Some("%H:%M".to_owned()));
    assert_eq!(time_format("uuid"), None);
}

#[test]
fn help_lists_eight_functions() {
    let f = functions();
    assert_eq!(f.len(), 8);
    assert_eq!(f[0].name, "date");
    assert_eq!(f[7].name, "uuid");
    assert_eq!(f[3].syntax, "{{randomInt}} or {{randomInt:min:max}}");
}
