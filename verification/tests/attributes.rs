use object_store::Attribute;
use object_store::AttributeValue;
use object_store::Attributes;

#[test]
fn test_attributes_basic() {
    let mut attributes = Attributes::from_iter(vec![
        (Attribute::ContentDisposition, Some("inline".into())),
        (Attribute::ContentEncoding, Some("gzip".into())),
        (Attribute::ContentLanguage, Some("en-US".into())),
        (Attribute::ContentType, Some("test".into())),
        (Attribute::CacheControl, Some("control".into())),
        (Attribute::Metadata("key1".into()), Some("value1".into())),
    ]);

    assert!(!attributes.is_empty());
    assert_eq!(attributes.len(), 6);

    assert_eq!(
        attributes.get(&Attribute::ContentType),
        Some(&Some("test".into()))
    );

    let metav = Some("control".into());
    assert_eq!(attributes.get(&Attribute::CacheControl), Some(&metav));
    assert_eq!(
        attributes.insert(Attribute::CacheControl, Some("v1".into())),
        Some(metav)
    );
    assert_eq!(attributes.len(), 6);

    assert_eq!(
        attributes.remove(&Attribute::CacheControl).unwrap(),
        Some("v1".into())
    );
    assert_eq!(attributes.len(), 5);

    let metav: Option<AttributeValue> = Some("v2".into());
    attributes.insert(Attribute::CacheControl, metav.clone());
    assert_eq!(attributes.get(&Attribute::CacheControl), Some(&metav));
    assert_eq!(attributes.len(), 6);

    assert_eq!(
        attributes.get(&Attribute::ContentDisposition),
        Some(&Some("inline".into()))
    );
    assert_eq!(
        attributes.get(&Attribute::ContentEncoding),
        Some(&Some("gzip".into()))
    );
    assert_eq!(
        attributes.get(&Attribute::ContentLanguage),
        Some(&Some("en-US".into()))
    );
    assert_eq!(
        attributes.get(&Attribute::Metadata("key1".into())),
        Some(&Some("value1".into()))
    );
}

#[test]
fn new_and_with_capacity_are_empty() {
    let a = Attributes::new();
    assert!(a.is_empty());
    assert_eq!(a.len(), 0);
    let b = Attributes::with_capacity(16);
    assert!(b.is_empty());
    assert_eq!(b.len(), 0);
    assert_eq!(a, b);
    assert_eq!(Attributes::default(), a);
    assert_eq!(a.get(&Attribute::ContentType), None);
}

#[test]
fn distinct_keys_count_and_get_after_insert() {
    let keys = vec![
        Attribute::ContentType,
        Attribute::CacheControl,
        Attribute::Metadata("a".into()),
        Attribute::Metadata("b".into()),
        Attribute::ProviderSpecific("a".into()),
    ];
    let mut attrs = Attributes::new();
    let mut n = 0;
    for key in keys {
        let value: Option<AttributeValue> = Some(format!("v{}", n).into());
        assert_eq!(attrs.insert(key.clone(), value.clone()), None);
        n += 1;
        assert_eq!(attrs.len(), n);
        assert_eq!(attrs.get(&key), Some(&value));
    }
    assert_eq!(attrs.len(), 5);
}

#[test]
fn insert_twice_updates_and_returns_prior() {
    let mut attrs = Attributes::new();
    assert_eq!(attrs.insert(Attribute::ContentType, Some("a".into())), None);
    assert_eq!(
        attrs.insert(Attribute::ContentType, Some("b".into())),
        Some(Some("a".into()))
    );
    assert_eq!(attrs.len(), 1);
    assert_eq!(attrs.get(&Attribute::ContentType), Some(&Some("b".into())));
}

#[test]
fn unset_value_is_present_not_absent() {
    let mut attrs = Attributes::new();
    assert_eq!(attrs.insert(Attribute::ContentEncoding, None), None);
    assert_eq!(attrs.len(), 1);
    assert!(!attrs.is_empty());
    assert_eq!(attrs.get(&Attribute::ContentEncoding), Some(&None));
    assert_eq!(attrs.get(&Attribute::ContentLanguage), None);
    assert_eq!(
        attrs.insert(Attribute::ContentEncoding, Some("gzip".into())),
        Some(None)
    );
    assert_eq!(attrs.remove(&Attribute::ContentEncoding), Some(Some("gzip".into())));
    assert_eq!(attrs.insert(Attribute::ContentEncoding, None), None);
    assert_eq!(attrs.remove(&Attribute::ContentEncoding), Some(None));
    assert!(attrs.is_empty());
}

#[test]
fn remove_present_and_absent() {
    let mut attrs = Attributes::from_iter(vec![
        (Attribute::ContentType, Some("text/plain".into())),
        (Attribute::CacheControl, None),
    ]);
    assert_eq!(attrs.remove(&Attribute::ContentLanguage), None);
    assert_eq!(attrs.len(), 2);
    assert_eq!(
        attrs.remove(&Attribute::ContentType),
        Some(Some("text/plain".into()))
    );
    assert_eq!(attrs.len(), 1);
    assert_eq!(attrs.get(&Attribute::ContentType), None);
    assert_eq!(attrs.get(&Attribute::CacheControl), Some(&None));
    assert_eq!(attrs.remove(&Attribute::ContentType), None);
    assert_eq!(attrs.len(), 1);
}

#[test]
fn from_iter_last_pair_wins() {
    let attrs = Attributes::from_iter(vec![
        (Attribute::ContentType, Some("first".into())),
        (Attribute::CacheControl, Some("x".into())),
        (Attribute::ContentType, Some("second".into())),
    ]);
    assert_eq!(attrs.len(), 2);
    assert_eq!(
        attrs.get(&Attribute::ContentType),
        Some(&Some("second".into()))
    );
}

#[test]
fn iter_yields_every_pair_once() {
    let attrs = Attributes::from_iter(vec![
        (Attribute::ContentType, Some("t".into())),
        (Attribute::CacheControl, None),
        (Attribute::Metadata("m".into()), Some("v".into())),
    ]);
    let pairs = attrs.iter();
    assert_eq!(pairs.len(), 3);
    assert!(pairs.contains(&(&Attribute::ContentType, &Some("t".into()))));
    assert!(pairs.contains(&(&Attribute::CacheControl, &None)));
    assert!(pairs.contains(&(&Attribute::Metadata("m".into()), &Some("v".into()))));
}

#[test]
fn iter_set_values_skips_unset() {
    let attrs = Attributes::from_iter(vec![
        (Attribute::ContentType, Some("t".into())),
        (Attribute::CacheControl, None),
        (Attribute::Metadata("m".into()), Some("v".into())),
        (Attribute::ContentLanguage, None),
    ]);
    let pairs = attrs.iter_set_values();
    assert_eq!(pairs.len(), 2);
    assert!(pairs.contains(&(&Attribute::ContentType, &AttributeValue::from("t"))));
    assert!(pairs.contains(&(&Attribute::Metadata("m".into()), &AttributeValue::from("v"))));
    assert!(Attributes::new().iter_set_values().is_empty());
}

#[test]
fn keys_compare_by_variant_and_text() {
    assert_eq!(Attribute::Metadata("k".into()), Attribute::Metadata("k".to_string().into()));
    assert_ne!(Attribute::Metadata("k".into()), Attribute::ProviderSpecific("k".into()));
    assert_ne!(Attribute::Metadata("k".into()), Attribute::Metadata("j".into()));
    assert_ne!(Attribute::ContentType, Attribute::ContentEncoding);
    assert_eq!(Attribute::CacheControl.clone(), Attribute::CacheControl);
}

#[test]
fn values_compare_by_text_not_storage() {
    let fixed = AttributeValue::from("bar");
    let owned = AttributeValue::from("bar".to_string());
    assert_eq!(fixed, owned);
    assert_eq!(fixed.as_str(), "bar");
    assert_eq!(owned.as_ref(), "bar");
    assert_eq!(&*owned, "bar");
    assert_eq!(owned.len(), 3);
    assert_ne!(fixed, AttributeValue::from("baz"));
    assert_eq!(fixed.clone(), owned);
}

#[test]
fn collections_compare_as_mappings() {
    let a = Attributes::from_iter(vec![
        (Attribute::ContentType, Some("t".into())),
        (Attribute::CacheControl, None),
    ]);
    let b = Attributes::from_iter(vec![
        (Attribute::CacheControl, None),
        (Attribute::ContentType, Some("t".into())),
    ]);
    let c = Attributes::from_iter(vec![
        (Attribute::CacheControl, Some("x".into())),
        (Attribute::ContentType, Some("t".into())),
    ]);
    assert_eq!(a, b);
    assert_ne!(a, c);
    assert_eq!(a.clone(), a);
    assert_ne!(a, Attributes::new());
}

#[test]
fn borrowed_collection_iterates_over_pairs() {
    let attrs = Attributes::from_iter(vec![
        (Attribute::ContentType, Some("t".into())),
        (Attribute::CacheControl, None),
    ]);
    let mut seen = 0;
    let mut set = 0;
    for (key, value) in &attrs {
        assert_eq!(attrs.get(key), Some(value));
        seen += 1;
        if value.is_some() {
            set += 1;
        }
    }
    assert_eq!(seen, 2);
    assert_eq!(set, 1);
}
