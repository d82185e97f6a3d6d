use ord::find::{Find, FindError, Found, Output, Query, RangeOutput};
use ord::outpoint::{OutPoint, SatPoint};

fn satpoint() -> SatPoint {
    SatPoint { outpoint: OutPoint { txid: [3; 32], vout: 1 }, offset: 42 }
}

#[test]
fn a_single_satoshi_is_asked_for_and_reported() {
    let find = Find { outpoint: Vec::new(), sat: 5, end: None };
    assert_eq!(find.query(), Ok(Query::Sat { sat: 5 }));
    assert_eq!(find.run(Some(satpoint()), None), Ok(Found::Sat(Output { satpoint: satpoint() })));
}

#[test]
fn a_missing_satoshi_is_told_apart_by_the_outpoints_searched() {
    let everywhere = Find { outpoint: Vec::new(), sat: 5, end: None };
    let error = everywhere.run(None, None).unwrap_err();
    assert_eq!(error, FindError::SatNotMined);
    assert_eq!(error.message(), "sat has not been mined as of index height");

    let somewhere = Find { outpoint: vec![satpoint().outpoint], sat: 5, end: None };
    let error = somewhere.run(None, None).unwrap_err();
    assert_eq!(error, FindError::SatNotFound);
    assert_eq!(error.message(), "sat was not found in satpoint(s)");
}

#[test]
fn a_range_is_asked_for_and_reported() {
    let find = Find { outpoint: Vec::new(), sat: 5, end: Some(9) };
    assert_eq!(find.query(), Ok(Query::Range { start: 5, end: 9 }));
    let range = RangeOutput { satpoint: satpoint(), count: 4 };
    assert_eq!(find.run(Some(satpoint()), Some(range)), Ok(Found::Range(range)));
    let error = find.run(Some(satpoint()), None).unwrap_err();
    assert_eq!(error, FindError::RangeNotMined);
    assert_eq!(error.message(), "range has not been mined as of index height");
}

#[test]
fn an_empty_range_is_refused_without_asking() {
    for end in [5, 4, 0] {
        let find = Find { outpoint: Vec::new(), sat: 5, end: Some(end) };
        assert_eq!(find.query(), Err(FindError::RangeEmpty));
        let range = RangeOutput { satpoint: satpoint(), count: 1 };
        let error = find.run(Some(satpoint()), Some(range)).unwrap_err();
        assert_eq!(error, FindError::RangeEmpty);
        assert_eq!(error.message(), "range is empty");
    }
}
