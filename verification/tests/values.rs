use arendal::error::{Error, Loc};
use arendal::id::{Id, RawId};
use arendal::identifier::{IdError, Identifier, PackageId, TypeIdentifier};
use arendal::integer::Integer;
use arendal::keyword::Keyword;
use arendal::symbol::{KnownTSymbol, Symbol, TSymbol};
use arendal::types::Type;
use arendal::value::Value;

#[test]
fn integer_arithmetic() {
    let a = Integer::from_decimal("123456789012345678901234567890");
    let b = Integer::from_i64(-7);
    assert_eq!(a.add(&b).to_decimal_string(), "123456789012345678901234567883");
    assert_eq!(b.sub(&a).to_decimal_string(), "-123456789012345678901234567897");
    assert_eq!(a.mul(&b).to_decimal_string(), "-864197523086419752308641975230");
    assert_eq!(a.div(&b).to_decimal_string(), "-17636684144620811271604938270");
    assert_eq!(Integer::from_i64(-7).div(&Integer::from_i64(2)).to_decimal_string(), "-3");
    assert!(Integer::from_i64(0).is_zero());
    assert!(!Integer::from_i64(5).is_zero());
    assert_eq!(Integer::from_decimal("0042"), Integer::from_i64(42));
    assert_eq!(Integer::from_i64(i64::MIN).to_decimal_string(), "-9223372036854775808");
}

#[test]
fn raw_ids_print_in_lower_hex() {
    let id = RawId::from_u64(0x1234_abcd);
    let text = id.as_string();
    assert_eq!(text.len(), 64);
    assert!(text.starts_with("cdab341200000000"));
    assert_eq!(Id { id }.as_arcstr(), text);
    assert_eq!(RawId::from_u64(0).as_string(), "0".repeat(64));
}

#[test]
fn identifiers() {
    assert_eq!(Identifier::new("abc1").unwrap().as_str(), "abc1");
    assert_eq!(Identifier::new(""), Err(IdError::Empty));
    assert_eq!(Identifier::new("Abc"), Err(IdError::InvalidInitial('A')));
    assert_eq!(Identifier::new("a_b"), Err(IdError::InvalidChar(1, '_')));
    assert_eq!(Identifier::new("let"), Err(IdError::Keyword(Keyword::Let)));
    assert_eq!(TypeIdentifier::new("Red2").unwrap().as_str(), "Red2");
    assert_eq!(TypeIdentifier::new(""), Err(IdError::TypeEmpty));
    assert_eq!(TypeIdentifier::new("red"), Err(IdError::InvalidTypeInitial('r')));
    assert_eq!(PackageId::new("core").unwrap().as_str(), "core");
}

#[test]
fn symbols() {
    let loc = Loc::input(3);
    assert_eq!(Symbol::new(&loc, "x1").unwrap().as_str(), "x1");
    let e = Symbol::new(&loc, "1x").unwrap_err();
    assert_eq!(e.errors[0].it, Error::SymbolInvalidInitial('1'));
    assert_eq!(e.errors[0].loc.pos(), Some(3));
    assert_eq!(Symbol::new(&loc, "").unwrap_err().errors[0].it, Error::SymbolEmpty);
    assert_eq!(Symbol::new(&loc, "if").unwrap_err().errors[0].it, Error::SymbolKeywordFound(Keyword::If));
    assert_eq!(TSymbol::new(&loc, "True").unwrap(), TSymbol::Known(KnownTSymbol::True));
    assert_eq!(TSymbol::new(&loc, "red").unwrap_err().errors[0].it, Error::TSymbolInvalidInitial('r'));
    assert_eq!(TSymbol::new(&loc, "Red").unwrap().text(), "Red");
    assert!(TSymbol::new(&loc, "Red").unwrap().same_text(&TSymbol::new(&loc, "Red").unwrap()));
    assert_eq!(TSymbol::none().text(), "None");
}

#[test]
fn keywords() {
    for k in [Keyword::Pkg, Keyword::Pub, Keyword::Let, Keyword::If, Keyword::Then, Keyword::Else, Keyword::Type] {
        assert_eq!(Keyword::parse(k.as_str()), Some(k));
    }
    assert_eq!(Keyword::parse("lets"), None);
}

#[test]
fn singleton_values_of_types() {
    let loc = Loc::none();
    assert_eq!(Value::v_singleton(&loc, &Type::True).unwrap(), Value::v_true());
    assert_eq!(Value::v_singleton(&loc, &Type::Unit).unwrap(), Value::v_none());
    assert_eq!(Value::v_singleton(&loc, &Type::Integer).unwrap_err().errors[0].it, Error::SingletonExpected(Type::Integer));
    assert_eq!(Value::from_i64(3).get_type(), Type::Integer);
    assert_eq!(Value::v_bool(false), Value::v_false());
    assert_eq!(Value::from_i64(-12).to_text(), "-12");
    assert_eq!(Value::v_true().to_text(), "True");
}

#[test]
fn types_compare_by_name() {
    let red = Type::Singleton(TSymbol::new(&Loc::none(), "Red").unwrap());
    assert!(red.same(&red.duplicate()));
    assert!(!red.same(&Type::True));
    assert!(Type::True.is_boolean());
    assert!(Type::Boolean.is_boolean());
    assert!(!Type::Integer.is_boolean());
}

#[test]
fn typed_values() {
    let loc = Loc::input(2);
    assert_eq!(Value::v_integer(&loc, Type::type_integer(), Integer::from_i64(4)).unwrap(), Value::from_i64(4));
    let e = Value::v_integer(&loc, Type::type_boolean(), Integer::from_i64(4)).unwrap_err();
    assert_eq!(e.errors[0].it, Error::SingletonExpected(Type::Boolean));
    assert_eq!(e.errors[0].loc.pos(), Some(2));
    assert_eq!(Value::from_i64(7).as_integer(&loc).unwrap().to_decimal_string(), "7");
    let e = Value::v_true().as_integer(&loc).unwrap_err();
    assert_eq!(e.errors[0].it, Error::TypeMismatch(Type::Integer, Type::True));
    assert_eq!(Value::v_false().as_boolean(&loc).unwrap(), false);
    let e = Value::v_none().as_boolean(&loc).unwrap_err();
    assert_eq!(e.errors[0].it, Error::TypeMismatch(Type::Boolean, Type::Unit));
}

#[test]
fn kinds_of_types() {
    assert!(Type::type_none().is_none());
    assert!(Type::type_true().is_true());
    assert!(Type::type_false().is_false());
    assert!(Type::type_none().is_singleton());
    assert!(!Type::Boolean.is_singleton());
    assert!(Type::Integer.is_builtin());
    let red = Type::Singleton(TSymbol::new(&Loc::none(), "Red").unwrap());
    assert!(red.is_singleton());
    assert!(!red.is_builtin());
}

#[test]
fn id_texts_tell_ids_apart() {
    let a = Id { id: RawId::from_u64(1) };
    let b = Id { id: RawId::from_u64(256) };
    let a2 = Id { id: RawId::from_u64(1) };
    assert_ne!(a.as_string(), b.as_string());
    assert_eq!(a.as_string(), a2.as_string());
    assert_eq!(a.as_arcstr(), a.as_string());
}
