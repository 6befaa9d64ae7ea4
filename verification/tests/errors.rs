use arendal::error::{Error, ErrorVec, Errors, Loc};
use arendal::types::Type;

fn errs(r: &Result<impl Sized, ErrorVec>) -> Vec<Error> {
    match r {
        Ok(_) => vec![],
        Err(e) => e.errors.iter().map(|l| l.it.clone()).collect(),
    }
}

#[test]
fn located_failures() {
    let r: Result<(), ErrorVec> = Loc::input(4).to_err(Error::InvalidType);
    let e = r.unwrap_err();
    assert_eq!(e.len(), 1);
    assert_eq!(e.errors[0].loc.pos(), Some(4));
    assert!(e.contains(&Error::InvalidType));
    assert!(!e.contains(&Error::DivisionByZero));
    let l = Loc::input(7).to_wrap(3u8);
    assert_eq!(l.error(Error::NotImplemented).loc.pos(), Some(7));
    let r2: Result<u8, ErrorVec> = l.err(Error::ParsingError);
    assert_eq!(errs(&r2), vec![Error::ParsingError]);
}

#[test]
fn accumulated_results() {
    let e = Errors::new();
    assert!(e.to_unit_result().is_ok());
    let e = Errors::new();
    assert_eq!(e.to_lazy_result(|| 5).unwrap(), 5);
    let mut e = Errors::new();
    e.append_result::<u8>(Ok(1));
    e.append_result::<u8>(Loc::none().err(Error::InvalidType));
    assert!(e.to_lazy_result(|| 5).is_err());
    let mut e = Errors::new();
    e.add(&Loc::none(), Error::DivisionByZero);
    let r = e.result_to_result::<u8>(Loc::none().err(Error::InvalidType));
    assert_eq!(errs(&r), vec![Error::DivisionByZero, Error::InvalidType]);
    let r = Errors::new().result_to_result::<u8>(Ok(3));
    assert_eq!(r.unwrap(), 3);
}

#[test]
fn merged_results() {
    let ok1: Result<u8, ErrorVec> = Ok(1);
    let ok2: Result<u8, ErrorVec> = Ok(2);
    assert_eq!(Error::merge(ok1, ok2).unwrap(), (1, 2));
    let bad1: Result<u8, ErrorVec> = Loc::none().err(Error::InvalidType);
    let bad2: Result<u8, ErrorVec> = Loc::none().err(Error::NotImplemented);
    assert_eq!(errs(&Error::merge(bad1, bad2)), vec![Error::InvalidType, Error::NotImplemented]);
    let bad3: Result<u8, ErrorVec> = Loc::none().err(Error::DivisionByZero);
    let r = Error::merge3(bad3, Ok::<u8, ErrorVec>(2), Loc::none().err::<u8>(Error::ParsingError));
    assert_eq!(errs(&r), vec![Error::DivisionByZero, Error::ParsingError]);
    assert_eq!(Error::merge3(Ok::<u8, ErrorVec>(1), Ok::<u8, ErrorVec>(2), Ok::<u8, ErrorVec>(3)).unwrap(), (1, 2, 3));
    assert_eq!(
        Error::type_mismatch(Type::type_integer(), Type::type_boolean()),
        Error::TypeMismatch(Type::Integer, Type::Boolean)
    );
}
