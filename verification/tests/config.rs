use soundboard::config::{OverlapBehavior, OverlapNotFound};
use std::str::FromStr;

#[test]
fn overlap_names_parse() {
    assert_eq!(OverlapBehavior::parse("prevent"), Ok(OverlapBehavior::Prevent));
    assert_eq!(OverlapBehavior::parse("overlap"), Ok(OverlapBehavior::Overlap));
    assert_eq!(OverlapBehavior::parse("replace"), Ok(OverlapBehavior::Replace));
}

#[test]
fn unknown_overlap_is_an_error() {
    assert_eq!(OverlapBehavior::parse("Prevent"), Err(OverlapNotFound));
    assert_eq!(OverlapBehavior::parse(""), Err(OverlapNotFound));
    assert_eq!(OverlapBehavior::parse("replace "), Err(OverlapNotFound));
    assert_eq!(OverlapNotFound.message(), "Unknown overlap");
}

#[test]
fn overlap_from_str_agrees_with_parse() {
    assert_eq!(OverlapBehavior::from_str("overlap"), Ok(OverlapBehavior::Overlap));
    assert_eq!("nothing".parse::<OverlapBehavior>(), Err(OverlapNotFound));
}

#[test]
fn overlap_default_is_prevent() {
    assert_eq!(OverlapBehavior::default(), OverlapBehavior::Prevent);
}

#[test]
fn overlap_name_round_trip() {
    for overlap in [OverlapBehavior::Prevent, OverlapBehavior::Overlap, OverlapBehavior::Replace] {
        assert_eq!(OverlapBehavior::parse(overlap.as_str()), Ok(overlap));
    }
    assert_eq!(OverlapBehavior::Prevent.as_str(), "prevent");
    assert_eq!(OverlapBehavior::Overlap.as_str(), "overlap");
    assert_eq!(OverlapBehavior::Replace.as_str(), "replace");
}
