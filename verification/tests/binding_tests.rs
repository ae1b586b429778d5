use zdtwalk::binding::{BindingInclude, FilteredInclude, IncludeEntry, PropertyType};

#[test]
fn property_type_display() {
    assert_eq!(PropertyType::String.to_string(), "string");
    assert_eq!(PropertyType::Int.to_string(), "int");
    assert_eq!(PropertyType::Boolean.to_string(), "boolean");
    assert_eq!(PropertyType::Array.to_string(), "array");
    assert_eq!(PropertyType::Uint8Array.to_string(), "uint8-array");
    assert_eq!(PropertyType::StringArray.to_string(), "string-array");
    assert_eq!(PropertyType::Phandle.to_string(), "phandle");
    assert_eq!(PropertyType::Phandles.to_string(), "phandles");
    assert_eq!(PropertyType::PhandleArray.to_string(), "phandle-array");
    assert_eq!(PropertyType::Path.to_string(), "path");
    assert_eq!(PropertyType::Compound.to_string(), "compound");
}

#[test]
fn include_entry_accessors() {
    let simple = IncludeEntry::Name("foo.yaml".into());
    assert_eq!(simple.file_name(), "foo.yaml");
    assert!(simple.filter().is_none());

    let filtered = IncludeEntry::Filtered(FilteredInclude {
        name: "bar.yaml".into(),
        property_allowlist: Some(vec!["reg".into()]),
        property_blocklist: None,
    });
    assert_eq!(filtered.file_name(), "bar.yaml");
    assert!(filtered.filter().is_some());
}

#[test]
fn single_include_file_names() {
    let inc = BindingInclude::Single("base.yaml".to_string());
    assert_eq!(inc.file_names(), vec!["base.yaml"]);
}

#[test]
fn list_include_file_names() {
    let inc = BindingInclude::List(vec![
        IncludeEntry::Name("a.yaml".into()),
        IncludeEntry::Name("b.yaml".into()),
        IncludeEntry::Name("c.yaml".into()),
    ]);
    assert_eq!(inc.file_names(), vec!["a.yaml", "b.yaml", "c.yaml"]);
}

#[test]
fn filtered_include_file_names() {
    let inc = BindingInclude::List(vec![
        IncludeEntry::Filtered(FilteredInclude {
            name: "base.yaml".into(),
            property_allowlist: Some(vec!["reg".into(), "status".into()]),
            property_blocklist: None,
        }),
        IncludeEntry::Filtered(FilteredInclude {
            name: "optional.yaml".into(),
            property_allowlist: None,
            property_blocklist: Some(vec!["deprecated-prop".into()]),
        }),
        IncludeEntry::Name("simple.yaml".into()),
    ]);
    assert_eq!(inc.file_names(), vec!["base.yaml", "optional.yaml", "simple.yaml"]);
    if let BindingInclude::List(entries) = &inc {
        let f = entries[0].filter().unwrap();
        assert_eq!(f.name, "base.yaml");
        assert_eq!(f.property_allowlist, Some(vec!["reg".to_string(), "status".to_string()]));
        assert_eq!(f.property_blocklist, None);
        assert!(entries[2].filter().is_none());
        assert_eq!(entries[2].file_name(), "simple.yaml");
    } else {
        panic!("expected a list");
    }
}

#[test]
fn empty_include_list_names_nothing() {
    let inc = BindingInclude::List(Vec::new());
    assert!(inc.file_names().is_empty());
}
