use arendal::error::Loc;
use arendal::identifier::{FQTypeId, Identifier, PackageId, Path, TypeIdentifier};
use arendal::names::{Names, NamesError};
use arendal::symbol::KnownTSymbol;
use arendal::types::Type;

fn id(s: &str) -> Identifier {
    Identifier::new(s).unwrap()
}

#[test]
fn values_are_found_in_scope() {
    let mut names = Names::builtin();
    assert_eq!(names.get_val(&id("x")), None);
    assert!(names.add_val(Loc::none(), id("x"), Type::type_integer()).is_ok());
    assert_eq!(names.get_val(&id("x")), Some(Type::Integer));
    assert_eq!(names.get_val(&id("y")), None);
}

#[test]
fn duplicate_values_are_rejected() {
    let mut names = Names::builtin();
    assert!(names.add_val(Loc::none(), id("x"), Type::type_integer()).is_ok());
    match names.add_val(Loc::input(3), id("x"), Type::type_boolean()) {
        Err(e) => {
            assert_eq!(e.loc.pos(), Some(3));
            assert!(matches!(e.it, NamesError::DuplicateVal(ref x) if x.as_str() == "x"));
        }
        Ok(()) => panic!("duplicate accepted"),
    }
    assert_eq!(names.get_val(&id("x")), Some(Type::Integer));
}

#[test]
fn inner_scopes_hide_outer_ones() {
    let mut names = Names::builtin();
    assert!(names.add_val(Loc::none(), id("x"), Type::type_integer()).is_ok());
    let key = names.push_val_scope();
    assert_eq!(key, 2);
    assert_eq!(names.get_val(&id("x")), Some(Type::Integer));
    assert!(names.add_val(Loc::none(), id("x"), Type::type_boolean()).is_ok());
    assert!(names.add_val(Loc::none(), id("y"), Type::Unit).is_ok());
    assert_eq!(names.get_val(&id("x")), Some(Type::Boolean));
    assert_eq!(names.get_val(&id("y")), Some(Type::Unit));
    names.pop_val_scope(key);
    assert_eq!(names.get_val(&id("x")), Some(Type::Integer));
    assert_eq!(names.get_val(&id("y")), None);
}

#[test]
fn module_paths() {
    let a = Path::std_root().child(id("collections"));
    let b = Path::std_root().child(id("collections"));
    assert!(a.same(&b));
    assert!(!a.same(&Path::this_package().child(id("collections"))));
    let deep = a.child(id("map"));
    assert!(deep.same(&b.child(id("map"))));
    assert!(!deep.same(&a));
    assert!(!deep.same(&Path::std_root().child(id("map"))));
    let pkg = Path::package(PackageId::Package(id("other")));
    assert!(pkg.same(&Path::package(PackageId::Package(id("other")))));
    assert!(!pkg.same(&Path::package(PackageId::Current)));
}

#[test]
fn full_type_ids() {
    let t = TypeIdentifier::known(KnownTSymbol::Integer);
    assert_eq!(t.as_str(), "Integer");
    let a = FQTypeId::std_type(t.duplicate());
    assert!(a.same(&FQTypeId::new(Path::std_root(), TypeIdentifier::new("Integer").unwrap())));
    assert!(!a.same(&FQTypeId::new(Path::this_package(), t)));
}

#[test]
fn scopes_close() {
    let scope = arendal::scope::Scope::builtin();
    let closed = scope.close();
    let shared = closed.clone();
    assert!(format!("{:?}", shared).contains("Integer"));
    let empty: arendal::scope::Scope = Default::default();
    assert!(!format!("{:?}", empty.close()).contains("Integer"));
}
