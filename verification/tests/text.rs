use monzo_finops::text::{chars_of, decimal_string, split_fields, string_of};

#[test]
fn split_like_std() {
    for s in ["", ",", "a", "a,b", ",a,", "a,,b"] {
        let ours = split_fields(s, ',');
        let std_fields: Vec<String> = s.split(',').map(|f| f.to_string()).collect();
        assert_eq!(ours, std_fields, "for {:?}", s);
    }
}

#[test]
fn decimal_strings() {
    assert_eq!(decimal_string(0), "0");
    assert_eq!(decimal_string(10), "10");
    assert_eq!(decimal_string(u64::MAX), u64::MAX.to_string());
}

#[test]
fn chars_round_trip() {
    let chars = chars_of("héllo");
    assert_eq!(chars, vec!['h', 'é', 'l', 'l', 'o']);
    assert_eq!(string_of(&chars), "héllo");
}

#[test]
fn lines_like_std() {
    for s in ["", "\n", "a", "a\n", "a\r\nb", "a\r", "a\n\nb\n", "\r\n\r\n", "x\ry\nz"] {
        let ours = monzo_finops::text::lines_of(s);
        let std_lines: Vec<String> = s.lines().map(|l| l.to_string()).collect();
        assert_eq!(ours, std_lines, "for {:?}", s);
    }
}

#[test]
fn split_then_join_gives_back_the_text() {
    for s in ["", ",", "a,b", ",a,,b,"] {
        assert_eq!(split_fields(s, ',').join(","), s);
    }
    let pieces = vec!["x".to_string(), "".to_string(), "yz".to_string()];
    assert_eq!(split_fields(&pieces.join(","), ','), pieces);
}
