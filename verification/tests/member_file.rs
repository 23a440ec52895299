use rustwave_bot::members::{chars_of, new_member_models, parse_members};
use rustwave_bot::entity::social_credit_user::Model;

#[test]
fn parses_lines_with_commas() {
    let members = parse_members("1,Alice\n2,Bob\n").unwrap();
    assert_eq!(members, vec![(1, "Alice".to_string()), (2, "Bob".to_string())]);
}

#[test]
fn trims_lines_and_skips_the_rest() {
    let text = "  10,Steve  \r\n\n   \nno comma here\n-5,Name, with comma\n\u{3000}+7,x\u{A0}";
    let members = parse_members(text).unwrap();
    assert_eq!(
        members,
        vec![(10, "Steve".to_string()), (-5, "Name, with comma".to_string()), (7, "x".to_string())]
    );
}

#[test]
fn empty_name_and_empty_file() {
    assert_eq!(parse_members("3,").unwrap(), vec![(3, String::new())]);
    assert_eq!(parse_members("").unwrap(), vec![]);
}

#[test]
fn bad_id_gives_the_integer_error() {
    let err = parse_members("1,A\nx1,B\n99999999999999999999,C").unwrap_err();
    assert_eq!(err.to_string(), "invalid digit found in string");
    let err = parse_members(",nobody").unwrap_err();
    assert_eq!(err.to_string(), "cannot parse integer from empty string");
    let err = parse_members("1 ,A").unwrap_err();
    assert_eq!(err.to_string(), "invalid digit found in string");
    let err = parse_members("99999999999999999999,C").unwrap_err();
    assert_eq!(err.to_string(), "number too large to fit in target type");
}

#[test]
fn chars_in_order() {
    assert_eq!(chars_of("aé\u{3000}z"), vec!['a', 'é', '\u{3000}', 'z']);
}

#[test]
fn seeded_members_start_at_zero() {
    let models = new_member_models(&vec![(4, "Q".to_string()), (-2, "R".to_string())]);
    assert_eq!(
        models,
        vec![
            Model { id: 4, social_credit: 0, ign: Some("Q".to_string()) },
            Model { id: -2, social_credit: 0, ign: Some("R".to_string()) },
        ]
    );
}

#[test]
fn rendered_ids_read_back() {
    for n in [0i64, 1, -1, 42, i64::MIN, i64::MAX] {
        let mut line = String::new();
        rustwave_bot::text::push_i64(&mut line, n);
        line.push_str(",name");
        assert_eq!(parse_members(&line).unwrap(), vec![(n, "name".to_string())]);
    }
}
