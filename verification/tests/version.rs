use version_ranges::range::{VersionRange, VersionRangePart};
use version_ranges::version::{Version, VersionPart};

fn parsed(s: &str) -> Version {
    Version::parse(s).unwrap()
}

#[test]
fn wildcard_inputs_parse_to_wildcard_version() {
    let empty = parsed("");
    assert_eq!(empty.parts().len(), 0);
    assert_eq!(empty.render(), "");
    assert_eq!(empty.text().as_str(), "*");

    let star = parsed("*");
    assert_eq!(star.parts().len(), 0);
    assert_eq!(star.render(), "");
    assert_eq!(star.text().as_str(), "*");
}

#[test]
fn numeric_dotted_input_parses_to_one_part() {
    let v = parsed("1.2.3");
    assert_eq!(v.parts().len(), 1);
    assert!(v.parts()[0] == VersionPart::new(vec![1, 2, 3]));
    assert_eq!(v.render(), "1.2.3");
    assert_eq!(v.text().as_str(), "1.2.3");
}

#[test]
fn numeric_round_trip_reparses_equal() {
    let v = parsed("1.2.3");
    let formatted = v.parts()[0].render();
    assert_eq!(formatted, "1.2.3");
    let again = parsed(&formatted);
    assert!(v == again);

    let w = parsed("10.0.204");
    let again_w = parsed(&w.parts()[0].render());
    assert!(w == again_w);
}

#[test]
fn ordering_is_trichotomous_and_transitive_on_examples() {
    let a = parsed("1.2.3");
    let b = parsed("1.3.0");
    let c = parsed("2.0.0");
    assert!(a < b);
    assert!(!(a == b));
    assert!(!(a > b));
    assert!(b < c);
    assert!(a < c);
    let d = parsed("1.2.3.0");
    assert!(a == d);
    assert!(!(a < d));
    assert!(!(a > d));
    assert!(c > a);
}

#[test]
fn ordering_examples() {
    assert!(parsed("1.2.3") < parsed("1.3.0"));
    assert!(parsed("1.2.3") == parsed("1.2.3"));
}

#[test]
fn letters_dominant_input_fails() {
    let e = Version::parse("abcdef").unwrap_err();
    assert_eq!(e.message().as_str(), "Invalid version format: 'abcdef'");
}

#[test]
fn error_message_keeps_original_text() {
    let e = Version::parse("ABC!").unwrap_err();
    assert_eq!(e.message().as_str(), "Invalid version format: 'ABC!'");
}

#[test]
fn half_open_range_membership() {
    let range = VersionRange::new(
        VersionRangePart::new(parsed("1.0.0"), true),
        VersionRangePart::new(parsed("2.0.0"), false),
    );
    assert!(range.contains(&parsed("1.0.0")));
    assert!(range.contains(&parsed("1.5.0")));
    assert!(!range.contains(&parsed("2.0.0")));
}

#[test]
fn lower_wildcard_range_membership_and_render() {
    let range2 = VersionRange::new(
        VersionRangePart::new(parsed("*"), false),
        VersionRangePart::new(parsed("1.0.0"), false),
    );
    assert!(range2.contains(&parsed("0.0.1")));
    assert!(!range2.contains(&parsed("1.0.0")));
    assert_eq!(range2.render(), "(*,1.0.0)");
}

#[test]
fn full_wildcard_range_renders_star_and_contains_everything() {
    let range = VersionRange::new(
        VersionRangePart::new(parsed("*"), false),
        VersionRangePart::new(parsed("*"), true),
    );
    assert_eq!(range.render(), "*");
    assert!(range.contains(&parsed("*")));
    assert!(range.contains(&parsed("0.0.0")));
    assert!(range.contains(&parsed("1.2.3")));
    assert!(range.contains(&parsed("999.999.999")));
    assert!(range.contains(&parsed("2.0-rc-1")));
}

#[test]
fn bounded_range_renders_brackets() {
    let range = VersionRange::new(
        VersionRangePart::new(parsed("1.0"), true),
        VersionRangePart::new(parsed("2.0"), false),
    );
    assert_eq!(range.render(), "[1.0,2.0)");
}

#[test]
fn maturity_keywords_become_ranked_digits() {
    assert!(parsed("1.0-alpha").parts()[1] == VersionPart::new(vec![0]));
    assert!(parsed("1.0-beta").parts()[1] == VersionPart::new(vec![1]));
    assert!(parsed("1.0-rc").parts()[1] == VersionPart::new(vec![2]));
    assert!(parsed("1.0-snapshot").parts()[1] == VersionPart::new(vec![2]));
    assert!(parsed("1.0-pre").parts()[1] == VersionPart::new(vec![2]));
    assert!(parsed("1.0-pre-release").parts()[1] == VersionPart::new(vec![2]));
    assert!(parsed("1.0-release").parts()[1] == VersionPart::new(vec![3]));

    assert!(parsed("1.0-alpha") < parsed("1.0-beta"));
    assert!(parsed("1.0-beta") < parsed("1.0-rc"));
    assert!(parsed("1.0-rc") < parsed("1.0-release"));
    assert!(parsed("1.0-release") < parsed("1.1"));
}

#[test]
fn delimiters_unify_before_splitting() {
    let v = parsed("1.0_2+3:4");
    assert_eq!(v.parts().len(), 4);
    assert!(v.parts()[0] == VersionPart::new(vec![1, 0]));
    assert!(v.parts()[1] == VersionPart::new(vec![2]));
    assert!(v.parts()[2] == VersionPart::new(vec![3]));
    assert!(v.parts()[3] == VersionPart::new(vec![4]));
}

#[test]
fn empty_segments_are_dropped() {
    let v = parsed("--1.0--");
    assert_eq!(v.parts().len(), 1);
    assert!(v.parts()[0] == VersionPart::new(vec![1, 0]));
}

#[test]
fn commit_ref_like_segments_are_dropped() {
    let v = parsed("1.2.3-a1b2c3");
    assert_eq!(v.parts().len(), 1);
    assert!(v.parts()[0] == VersionPart::new(vec![1, 2, 3]));

    let w = parsed("deadbeef-1.0");
    assert_eq!(w.parts().len(), 1);
    assert!(w.parts()[0] == VersionPart::new(vec![1, 0]));
}

#[test]
fn invalid_charset_segments_are_dropped_silently() {
    let v = parsed("1.0-x/y");
    assert_eq!(v.parts().len(), 1);
    assert!(v.parts()[0] == VersionPart::new(vec![1, 0]));
}

#[test]
fn letter_adjacent_to_digit_concatenates_rank() {
    // `z` has rank 26; encoding concatenates it against the adjacent
    // digit with no separator, so `2z` reads as 226.
    let v = parsed("1.2z");
    assert_eq!(v.parts().len(), 1);
    assert!(v.parts()[0] == VersionPart::new(vec![1, 226]));

    // A lone letter piece becomes its rank: `1.b` reads as [1, 2].
    let w = parsed("1.b");
    assert!(w.parts()[0] == VersionPart::new(vec![1, 2]));
}

#[test]
fn dotted_word_prefixes_are_stripped() {
    let v = parsed("ver.1.0");
    assert_eq!(v.parts().len(), 1);
    assert!(v.parts()[0] == VersionPart::new(vec![1, 0]));
}

#[test]
fn letters_without_following_dot_are_encoded() {
    // `v` is not followed by a dot, so it is encoded (rank 22) rather
    // than stripped, gluing onto the following digit.
    let v = parsed("v1.0");
    assert!(v.parts()[0] == VersionPart::new(vec![221, 0]));
}

#[test]
fn unparsable_pieces_are_discarded() {
    // The middle piece exceeds u32::MAX and is dropped.
    let v = parsed("1.99999999999.2");
    assert!(v.parts()[0] == VersionPart::new(vec![1, 2]));

    // Consecutive dots give empty pieces, which are dropped.
    let w = parsed("1..2");
    assert!(w.parts()[0] == VersionPart::new(vec![1, 2]));
}

#[test]
fn comparison_pads_with_zeros() {
    assert!(parsed("1.2") == parsed("1.2.0"));
    assert!(parsed("1") == parsed("1.0.0.0"));
    assert!(parsed("*") == parsed("0.0"));
    assert!(parsed("*") < parsed("0.0.1"));
    assert!(parsed("1.2") < parsed("1.2.1"));
}

#[test]
fn part_comparison_pads_with_zeros() {
    assert!(VersionPart::new(vec![1, 2]) < VersionPart::new(vec![1, 3]));
    assert!(VersionPart::new(vec![1]) == VersionPart::new(vec![1, 0, 0]));
    assert!(VersionPart::new(vec![]) == VersionPart::new(vec![0, 0]));
    assert!(VersionPart::null() == VersionPart::new(vec![]));
    assert!(VersionPart::new(vec![2]) > VersionPart::new(vec![1, 9, 9]));
}

#[test]
fn part_render_joins_with_dots() {
    assert_eq!(VersionPart::new(vec![1, 0, 3]).render(), "1.0.3");
    assert_eq!(VersionPart::new(vec![42]).render(), "42");
    assert_eq!(VersionPart::new(vec![]).render(), "");
    assert_eq!(VersionPart::null().render(), "0");
}

#[test]
fn version_render_joins_parts_with_dots() {
    let v = parsed("1.0-beta");
    assert_eq!(v.render(), "1.0.1");
}

#[test]
fn from_str_matches_parse() {
    let v: Version = "1.2.3".parse().unwrap();
    assert!(v == parsed("1.2.3"));
    assert!("abcdef".parse::<Version>().is_err());
}
