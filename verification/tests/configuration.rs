use config_lint::config::{has_distinct_names, Config, Entry, Enum, Lint, Server, Type};
use config_lint::lint::lint;

fn entry<T>(name: &str, value: T) -> Entry<T> {
    Entry { name: name.to_string(), value }
}

fn fix_all() -> Option<Lint> {
    Some(Lint {
        default: Some(true),
        autofix: Some(true),
        field_lint: None,
        type_lint: None,
        enum_lint: None,
        enum_value_lint: None,
    })
}

#[test]
fn distinct_names_are_told_from_repeated_ones() {
    assert!(has_distinct_names(&Vec::<Entry<u8>>::new()));
    assert!(has_distinct_names(&vec![entry("a", 1)]));
    assert!(has_distinct_names(&vec![entry("a", 1), entry("b", 1), entry("A", 1)]));
    assert!(!has_distinct_names(&vec![entry("a", 1), entry("b", 2), entry("a", 3)]));
    assert!(!has_distinct_names(&vec![entry("a", 1), entry("a", 1)]));
    assert!(!has_distinct_names(&vec![entry("x", 1), entry("b", 2), entry("b", 3)]));
}

#[test]
fn well_formed_configuration_has_no_name_twice_in_a_namespace() {
    let c: Config<u8, u8> = Config {
        types: vec![
            entry("A", Type { fields: vec![entry("id", 1), entry("name", 2)] }),
            entry("B", Type { fields: vec![entry("id", 1)] }),
        ],
        enums: vec![
            entry("A", Enum { variants: vec![entry("X", 1), entry("Y", 2)] }),
            entry("C", Enum { variants: vec![entry("X", 1)] }),
        ],
        server: Server { lint: None },
    };
    assert!(c.is_well_formed());
    let empty: Config<u8, u8> =
        Config { types: vec![], enums: vec![], server: Server { lint: None } };
    assert!(empty.is_well_formed());
}

#[test]
fn repeated_name_in_any_namespace_is_not_well_formed() {
    let good: Config<u8, u8> = Config {
        types: vec![entry("A", Type { fields: vec![entry("id", 1)] })],
        enums: vec![entry("E", Enum { variants: vec![entry("X", 1)] })],
        server: Server { lint: None },
    };
    let mut types = good.clone();
    types.types.push(entry("A", Type { fields: vec![] }));
    assert!(!types.is_well_formed());
    let mut fields = good.clone();
    fields.types[0].value.fields.push(entry("id", 2));
    assert!(!fields.is_well_formed());
    let mut enums = good.clone();
    enums.enums.push(entry("E", Enum { variants: vec![] }));
    assert!(!enums.is_well_formed());
    let mut variants = good.clone();
    variants.enums[0].value.variants.push(entry("X", 2));
    assert!(!variants.is_well_formed());
    assert!(good.is_well_formed());
}

#[test]
fn lint_keeps_a_configuration_well_formed() {
    let c: Config<u8, u8> = Config {
        types: vec![
            entry("user_profile", Type { fields: vec![entry("user_name", 1), entry("id", 2)] }),
            entry("post", Type { fields: vec![entry("user_name", 1)] }),
        ],
        enums: vec![entry(
            "color_kind",
            Enum { variants: vec![entry("red", 1), entry("blue", 2)] },
        )],
        server: Server { lint: fix_all() },
    };
    assert!(c.is_well_formed());
    let out = lint(c).unwrap();
    assert!(out.config.is_well_formed());
    assert_eq!(out.config.types.len(), 2);
    assert_eq!(out.config.types[0].value.fields.len(), 2);
    assert_eq!(out.config.enums[0].value.variants.len(), 2);
}

#[test]
fn lint_takes_a_configuration_that_is_not_well_formed() {
    let c: Config<u8, u8> = Config {
        types: vec![entry("Same", Type { fields: vec![] }), entry("Same", Type { fields: vec![] })],
        enums: vec![],
        server: Server { lint: fix_all() },
    };
    assert!(!c.is_well_formed());
    let out = lint(c.clone()).unwrap();
    assert_eq!(out.config, c);
    assert_eq!(out.renames, vec![]);
}
