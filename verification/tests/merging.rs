use deorbit::{merge_aliases, Binding, BindingKind, ErasedUnsizer, TypeMeta};
use std::any::Any;
use std::sync::Arc;

#[test]
fn test_merges_aliases() {
    let bindings = vec![
        Binding {
            ty: TypeMeta::of::<dyn Any>(),
            kind: BindingKind::Alias {
                impls: vec![(
                    TypeMeta::of::<i32>(),
                    ErasedUnsizer::try_from(|x: Arc<i32>| x as Arc<dyn Any + Send + Sync>)
                        .unwrap(),
                )],
            },
        },
        Binding {
            ty: TypeMeta::of::<dyn Any>(),
            kind: BindingKind::Alias {
                impls: vec![(
                    TypeMeta::of::<i64>(),
                    ErasedUnsizer::try_from(|x: Arc<i64>| x as Arc<dyn Any + Send + Sync>)
                        .unwrap(),
                )],
            },
        },
        Binding {
            ty: TypeMeta::of::<dyn Any>(),
            kind: BindingKind::Alias {
                impls: vec![(
                    TypeMeta::of::<i128>(),
                    ErasedUnsizer::try_from(|x: Arc<i128>| x as Arc<dyn Any + Send + Sync>)
                        .unwrap(),
                )],
            },
        },
    ];

    let bindings = merge_aliases(bindings);

    assert_eq!(bindings.len(), 1);

    if let BindingKind::Alias { ref impls } = bindings[0].kind {
        assert_eq!(impls[0].0, TypeMeta::of::<i32>());
        assert_eq!(impls[1].0, TypeMeta::of::<i64>());
        assert_eq!(impls[2].0, TypeMeta::of::<i128>());
    } else {
        panic!("Binding is not an alias");
    }
}

#[test]
fn merging_twice_changes_nothing() {
    let alias = |ty: TypeMeta, imp: TypeMeta| Binding {
        ty,
        kind: BindingKind::Alias {
            impls: vec![(
                imp,
                ErasedUnsizer::try_from(|x: Arc<i32>| x as Arc<dyn Any + Send + Sync>).unwrap(),
            )],
        },
    };
    let bindings = vec![
        alias(TypeMeta::of::<dyn Any>(), TypeMeta::of::<i32>()),
        alias(TypeMeta::of::<dyn Any>(), TypeMeta::of::<i64>()),
        alias(TypeMeta::of::<dyn Any>(), TypeMeta::of::<i32>()),
    ];
    let once = merge_aliases(bindings);
    let once_keys: Vec<TypeMeta> = match &once[0].kind {
        BindingKind::Alias { impls } => impls.iter().map(|x| x.0).collect(),
        _ => panic!("Binding is not an alias"),
    };
    assert_eq!(once_keys, vec![TypeMeta::of::<i32>(), TypeMeta::of::<i64>()]);
    let twice = merge_aliases(once);
    assert_eq!(twice.len(), 1);
    let twice_keys: Vec<TypeMeta> = match &twice[0].kind {
        BindingKind::Alias { impls } => impls.iter().map(|x| x.0).collect(),
        _ => panic!("Binding is not an alias"),
    };
    assert_eq!(twice_keys, once_keys);
}
