use ids::Id128;
use ids::Id16;
use ids::Id32;
use ids::Id64;
use ids::Id8;
use ids::IdError;
use ids::IdImpl;
use ids::IdInner;
use ids::Identifier;

type Id = IdInner<'static, Id8>;

#[test]
fn id8_first_is_zero() {
    let first = Id8::first();
    assert_eq!(first.to_index(), 0);
}

#[test]
fn id8_next_advances_by_one() {
    let first = Id8::first();
    let second = first.next().unwrap();
    assert_eq!(second.to_index(), 1);
    assert!(!second.eq_impl(first));
}

#[test]
fn id8_next_on_maximum_is_exhausted() {
    let max = Id8::from_index(255).unwrap();
    assert_eq!(max.next(), Err(IdError::IdentifierExhausted));
}

#[test]
fn id8_from_index_at_maximum_succeeds() {
    let max = Id8::from_index(255).unwrap();
    assert_eq!(max.to_index(), 255);
}

#[test]
fn id8_from_index_past_maximum_is_range_failure() {
    assert_eq!(Id8::from_index(256), Err(IdError::RangeConversionFailure));
}

#[test]
fn id16_wraps_at_its_own_width() {
    assert_eq!(Id16::from_index(65535).unwrap().to_index(), 65535);
    assert_eq!(Id16::from_index(65536), Err(IdError::RangeConversionFailure));
    let max = Id16::from_index(65535).unwrap();
    assert_eq!(max.next(), Err(IdError::IdentifierExhausted));
}

#[test]
fn id32_round_trips_indices() {
    let id = Id32::from_index(70000).unwrap();
    assert_eq!(id.to_index(), 70000);
    assert_eq!(id.next().unwrap().to_index(), 70001);
}

#[test]
fn id64_round_trips_indices() {
    let id = Id64::from_index(1 << 40).unwrap();
    assert_eq!(id.to_index(), 1 << 40);
    assert!(id.eq_impl(Id64::from_index(1 << 40).unwrap()));
}

#[test]
fn id128_round_trips_indices() {
    let id = Id128::from_index(12345).unwrap();
    assert_eq!(id.to_index(), 12345);
    assert_eq!(id.next().unwrap().to_index(), 12346);
}

#[test]
fn inner_wrapper_counts_from_zero() {
    let first: IdInner<Id8> = IdInner::first("ran out of test identifiers");
    let second = first.next();
    let third = second.next();
    assert_eq!(Identifier::to_index(third), 2);
}

#[test]
fn identifier_impl_walks_the_domain() {
    let first = <Id as Identifier>::first();
    assert_eq!(first.to_index(), 0);
    let second = Identifier::next(first);
    assert_eq!(second.to_index(), 1);
    assert!(second.eq_id(Id::from_index(1).unwrap()));
    assert!(!second.eq_id(first));
}

#[test]
fn identifier_range_failure_matches_width() {
    assert!(matches!(Id::from_index(300), Err(IdError::RangeConversionFailure)));
    assert!(Id::from_index(255).is_ok());
}

#[test]
fn error_descriptions_are_distinct() {
    let texts = [
        IdError::IdentifierExhausted.describe(),
        IdError::RangeConversionFailure.describe(),
        IdError::LockCorrupted.describe(),
        IdError::IncompleteRemap.describe(),
    ];
    for (i, a) in texts.iter().enumerate() {
        assert!(!a.is_empty());
        for b in texts.iter().skip(i + 1) {
            assert_ne!(a, b);
        }
    }
}
