use deorbit::unsize::Error;
use deorbit::{ErasedArc, ErasedUnsizer};
use std::any::Any;
use std::sync::Arc;

#[test]
fn unsize_test_unsizes() {
    let arc = ErasedArc::from_instance(10);
    let unsizer =
        ErasedUnsizer::try_from(|x: Arc<i32>| x as Arc<dyn Any + Send + Sync>).unwrap();

    assert!(matches!(
        unsizer.unsize::<dyn Any + Send + Sync>(arc),
        Ok(..)
    ));
}

#[test]
fn unsize_test_fails_invalid_types() {
    let arc = ErasedArc::from_instance(10i64);
    let unsizer =
        ErasedUnsizer::try_from(|x: Arc<i32>| x as Arc<dyn Any + Send + Sync>).unwrap();

    assert!(matches!(
        unsizer.unsize::<dyn Any + Send + Sync>(arc),
        Err(Error::MismatchedTypes)
    ));
}

#[test]
fn unsize_test_fails_external_data() {
    let arc = ErasedArc::from_instance(10);
    let unsizer =
        ErasedUnsizer::try_from(|_x: Arc<i32>| Arc::new(1) as Arc<dyn Any + Send + Sync>)
            .unwrap();

    assert!(matches!(
        unsizer.unsize::<dyn Any + Send + Sync>(arc),
        Err(Error::MismatchedData)
    ));
}

#[test]
fn unsize_test_fails_to_sized() {
    let _arc = Arc::new(10);
    let unsizer = ErasedUnsizer::try_from(|x: Arc<i32>| x);

    assert!(matches!(unsizer, None));
}

#[test]
fn unsizer_reports_its_types() {
    let unsizer =
        ErasedUnsizer::try_from(|x: Arc<i32>| x as Arc<dyn Any + Send + Sync>).unwrap();
    assert_eq!(unsizer.type_in(), deorbit::TypeMeta::of::<i32>());
    assert_eq!(unsizer.type_out(), deorbit::TypeMeta::of::<dyn Any + Send + Sync>());
    let copy = unsizer.share();
    assert_eq!(copy.type_in(), unsizer.type_in());

    let out = unsizer.unsize_erased(&ErasedArc::from_instance(5i32)).unwrap();
    assert_eq!(out.ty(), deorbit::TypeMeta::of::<dyn Any + Send + Sync>());
    let value = out.coerce::<dyn Any + Send + Sync>().unwrap();
    assert_eq!(*value.downcast::<i32>().unwrap(), 5);
}
