use config_lint::case::TextCase;
use config_lint::config::{Config, Entry, Enum, Lint, Server, Type};
use config_lint::lint::{
    enum_lint, enum_value_lint, field_lint, lint, type_lint, LintError, Outcome,
};
use config_lint::naming::{Category, Rename};

type Cfg = Config<&'static str, u32>;

fn settings(default: Option<bool>, autofix: Option<bool>) -> Lint {
    Lint {
        default,
        autofix,
        field_lint: None,
        type_lint: None,
        enum_lint: None,
        enum_value_lint: None,
    }
}

fn entry<T>(name: &str, value: T) -> Entry<T> {
    Entry { name: name.to_string(), value }
}

fn ty(name: &str, fields: &[(&str, &'static str)]) -> Entry<Type<&'static str>> {
    entry(name, Type { fields: fields.iter().map(|(n, t)| entry(n, *t)).collect() })
}

fn en(name: &str, variants: &[(&str, u32)]) -> Entry<Enum<u32>> {
    entry(name, Enum { variants: variants.iter().map(|(n, v)| entry(n, *v)).collect() })
}

fn config(
    types: Vec<Entry<Type<&'static str>>>,
    enums: Vec<Entry<Enum<u32>>>,
    lint: Option<Lint>,
) -> Cfg {
    Config { types, enums, server: Server { lint } }
}

fn renamed(category: Category, from: &str, to: &str) -> Rename {
    Rename { category, from: from.to_string(), to: to.to_string() }
}

fn user_profile(lint: Option<Lint>) -> Cfg {
    config(vec![ty("user_profile", &[("user_name", "Int")])], vec![], lint)
}

#[test]
fn without_settings_the_configuration_passes_through() {
    let c = config(
        vec![ty("user_profile", &[("user_name", "Int"), ("Age", "Int")]), ty("b_type", &[])],
        vec![en("color_kind", &[("red", 1), ("Green", 2)])],
        None,
    );
    assert_eq!(lint(c.clone()), Ok(Outcome { config: c, renames: vec![] }));
}

#[test]
fn without_settings_every_rule_passes_the_configuration_through() {
    let c = config(
        vec![ty("user_profile", &[("user_name", "Int")])],
        vec![en("color_kind", &[("red", 1)])],
        None,
    );
    for autofix in [false, true] {
        let same = Ok(Outcome { config: c.clone(), renames: vec![] });
        assert_eq!(field_lint(c.clone(), autofix).to_result(), same);
        assert_eq!(type_lint(c.clone(), autofix).to_result(), same);
        assert_eq!(enum_lint(c.clone(), autofix).to_result(), same);
        assert_eq!(enum_value_lint(c.clone(), autofix).to_result(), same);
    }
}

#[test]
fn settings_without_default_or_style_leave_every_domain_alone() {
    let c = config(
        vec![ty("user_profile", &[("user_name", "Int")])],
        vec![en("color_kind", &[("red", 1)])],
        Some(settings(None, Some(true))),
    );
    assert_eq!(lint(c.clone()), Ok(Outcome { config: c.clone(), renames: vec![] }));
    let c2 = Config { server: Server { lint: Some(settings(Some(false), None)) }, ..c };
    assert_eq!(lint(c2.clone()), Ok(Outcome { config: c2, renames: vec![] }));
}

#[test]
fn autofix_renames_type_and_field() {
    let s = Some(settings(Some(true), Some(true)));
    let out = lint(user_profile(s)).unwrap();
    assert_eq!(out.config, config(vec![ty("UserProfile", &[("userName", "Int")])], vec![], s));
    assert!(out.config.types.iter().all(|t| t.name != "user_profile"));
    assert!(out.config.types[0].value.fields.iter().all(|f| f.name != "user_name"));
    assert_eq!(
        out.renames,
        vec![
            renamed(Category::Field, "user_name", "userName"),
            renamed(Category::Type, "user_profile", "UserProfile"),
        ]
    );
    let lines: Vec<String> = out.renames.iter().map(|r| r.message()).collect();
    assert_eq!(
        lines,
        vec![
            "field user_name is renamed to userName".to_string(),
            "type user_profile is renamed to UserProfile".to_string(),
        ]
    );
}

#[test]
fn report_stops_at_the_field_rule() {
    let s = Some(settings(Some(true), Some(false)));
    let error = lint(user_profile(s)).unwrap_err();
    assert_eq!(
        error,
        LintError::LintViolation("lint failed for field user_name, expected userName".to_string())
    );
    assert!(error.message().contains("lint failed for field user_name, expected userName"));
    assert!(!error.message().contains("type"));
    assert!(!error.message().contains("user_profile"));
}

#[test]
fn report_is_the_default_mode() {
    let s = Some(settings(Some(true), None));
    assert_eq!(
        lint(user_profile(s)),
        Err(LintError::LintViolation(
            "lint failed for field user_name, expected userName".to_string()
        ))
    );
}

#[test]
fn report_reaches_the_type_rule_when_fields_conform() {
    let s = Some(settings(Some(true), Some(false)));
    let c = config(vec![ty("user_profile", &[("userName", "Int")])], vec![], s);
    assert_eq!(
        lint(c),
        Err(LintError::LintViolation(
            "lint failed for type user_profile, expected UserProfile".to_string()
        ))
    );
}

#[test]
fn report_of_a_conforming_configuration_changes_nothing() {
    let s = Some(settings(Some(true), Some(false)));
    let c = config(
        vec![ty("UserProfile", &[("userName", "Int"), ("id", "ID")])],
        vec![en("ColorKind", &[("RED", 1), ("DARK_BLUE", 2)])],
        s,
    );
    assert_eq!(lint(c.clone()), Ok(Outcome { config: c, renames: vec![] }));
}

#[test]
fn field_rule_reports_three_violations_in_order() {
    let s = Some(settings(Some(true), Some(false)));
    let c = config(
        vec![
            ty("A", &[("first_name", "String"), ("id", "ID")]),
            ty("B", &[("last_name", "String"), ("email", "String"), ("created_at", "Date")]),
        ],
        vec![],
        s,
    );
    assert_eq!(
        field_lint(c, false).to_result(),
        Err("lint failed for field first_name, expected firstName\n\
             lint failed for field last_name, expected lastName\n\
             lint failed for field created_at, expected createdAt"
            .to_string())
    );
}

#[test]
fn type_rule_reports_every_violation() {
    let s = Some(settings(Some(true), Some(false)));
    let c = config(vec![ty("a_type", &[]), ty("Good", &[]), ty("bType", &[])], vec![], s);
    assert_eq!(
        type_lint(c, false).to_result(),
        Err("lint failed for type a_type, expected AType\n\
             lint failed for type bType, expected BType"
            .to_string())
    );
}

#[test]
fn enum_rule_reports_violations() {
    let s = Some(settings(Some(true), Some(false)));
    let c = config(vec![], vec![en("color_kind", &[("RED", 1)]), en("Shape", &[])], s);
    assert_eq!(
        enum_lint(c.clone(), false).to_result(),
        Err("lint failed for enum color_kind, expected ColorKind".to_string())
    );
    assert_eq!(
        lint(c),
        Err(LintError::LintViolation(
            "lint failed for enum color_kind, expected ColorKind".to_string()
        ))
    );
}

#[test]
fn enum_value_rule_reports_violations() {
    let s = Some(settings(Some(true), Some(false)));
    let c = config(
        vec![],
        vec![en("Color", &[("red", 1), ("GREEN", 2)]), en("Shape", &[("roundSquare", 3)])],
        s,
    );
    assert_eq!(
        enum_value_lint(c, false).to_result(),
        Err("lint failed for enum variant red, expected RED\n\
             lint failed for enum variant roundSquare, expected ROUND_SQUARE"
            .to_string())
    );
}

#[test]
fn autofix_renames_in_all_four_domains() {
    let s = Some(settings(Some(true), Some(true)));
    let c = config(
        vec![ty("user_profile", &[("user_name", "Int"), ("id", "ID")]), ty("Post", &[])],
        vec![en("color_kind", &[("red", 1), ("darkBlue", 2)])],
        s,
    );
    let out = lint(c).unwrap();
    assert_eq!(
        out.config,
        config(
            vec![ty("UserProfile", &[("userName", "Int"), ("id", "ID")]), ty("Post", &[])],
            vec![en("ColorKind", &[("RED", 1), ("DARK_BLUE", 2)])],
            s,
        )
    );
    assert_eq!(
        out.renames,
        vec![
            renamed(Category::Field, "user_name", "userName"),
            renamed(Category::Type, "user_profile", "UserProfile"),
            renamed(Category::Enum, "color_kind", "ColorKind"),
            renamed(Category::EnumValue, "red", "RED"),
            renamed(Category::EnumValue, "darkBlue", "DARK_BLUE"),
        ]
    );
}

#[test]
fn autofix_keeps_what_entries_hold_and_where_they_stand() {
    let s = Some(settings(Some(true), Some(true)));
    let c = config(
        vec![ty("z_type", &[("z_field", "Z"), ("a_field", "A")]), ty("a_type", &[("m", "M")])],
        vec![en("z_enum", &[("z", 26), ("a", 1)])],
        s,
    );
    let out = lint(c).unwrap();
    assert_eq!(
        out.config,
        config(
            vec![ty("ZType", &[("zField", "Z"), ("aField", "A")]), ty("AType", &[("m", "M")])],
            vec![en("ZEnum", &[("Z", 26), ("A", 1)])],
            s,
        )
    );
}

#[test]
fn named_style_is_used_without_default() {
    let mut l = settings(None, Some(true));
    l.field_lint = Some(TextCase::SnakeCase);
    let c = config(vec![ty("user_profile", &[("userName", "Int")])], vec![], Some(l));
    let out = lint(c).unwrap();
    assert_eq!(
        out.config,
        config(vec![ty("user_profile", &[("user_name", "Int")])], vec![], Some(l))
    );
    assert_eq!(out.renames, vec![renamed(Category::Field, "userName", "user_name")]);
}

#[test]
fn named_style_overrides_the_built_in_one() {
    let mut l = settings(Some(true), Some(true));
    l.type_lint = Some(TextCase::SnakeCase);
    l.enum_lint = Some(TextCase::ScreamingSnakeCase);
    l.enum_value_lint = Some(TextCase::PascalCase);
    let c = config(
        vec![ty("UserProfile", &[("user_name", "Int")])],
        vec![en("colorKind", &[("dark_blue", 2)])],
        Some(l),
    );
    let out = lint(c).unwrap();
    assert_eq!(
        out.config,
        config(
            vec![ty("user_profile", &[("userName", "Int")])],
            vec![en("COLOR_KIND", &[("DarkBlue", 2)])],
            Some(l),
        )
    );
}

#[test]
fn colliding_field_rename_fails_the_lint() {
    let s = Some(settings(Some(true), Some(true)));
    let c = config(vec![ty("T", &[("foo_bar", "Int"), ("fooBar", "String")])], vec![], s);
    assert_eq!(
        lint(c.clone()),
        Err(LintError::RenameCollision(
            "rename collision for field foo_bar, fooBar already exists".to_string()
        ))
    );
    assert_eq!(
        field_lint(c, true).to_result(),
        Err("rename collision for field foo_bar, fooBar already exists".to_string())
    );
}

#[test]
fn same_field_name_in_two_types_does_not_collide() {
    let s = Some(settings(Some(true), Some(true)));
    let c = config(
        vec![ty("A", &[("foo_bar", "Int")]), ty("B", &[("fooBar", "String")])],
        vec![],
        s,
    );
    let out = lint(c).unwrap();
    assert_eq!(
        out.config,
        config(
            vec![ty("A", &[("fooBar", "Int")]), ty("B", &[("fooBar", "String")])],
            vec![],
            s,
        )
    );
}

#[test]
fn colliding_type_rename_fails_the_lint() {
    let s = Some(settings(Some(true), Some(true)));
    let c = config(vec![ty("UserProfile", &[]), ty("user_profile", &[])], vec![], s);
    assert_eq!(
        lint(c),
        Err(LintError::RenameCollision(
            "rename collision for type user_profile, UserProfile already exists".to_string()
        ))
    );
}

#[test]
fn colliding_enum_rename_fails_the_lint() {
    let s = Some(settings(Some(true), Some(true)));
    let c = config(vec![], vec![en("color_kind", &[]), en("color-kind", &[])], s);
    assert_eq!(
        enum_lint(c, true).to_result(),
        Err("rename collision for enum color_kind, ColorKind already exists\n\
             rename collision for enum color-kind, ColorKind already exists"
            .to_string())
    );
}

#[test]
fn colliding_variant_rename_fails_the_lint() {
    let s = Some(settings(Some(true), Some(true)));
    let c = config(vec![], vec![en("Color", &[("RED", 1), ("red", 2)])], s);
    assert_eq!(
        lint(c),
        Err(LintError::RenameCollision(
            "rename collision for enum variant red, RED already exists".to_string()
        ))
    );
}

#[test]
fn linting_a_fixed_configuration_again_changes_nothing() {
    let s = Some(settings(Some(true), Some(true)));
    let c = config(
        vec![ty("user_profile", &[("user_name", "Int"), ("id", "ID")]), ty("post-item", &[])],
        vec![en("color_kind", &[("red", 1), ("darkBlue", 2)])],
        s,
    );
    let once = lint(c).unwrap();
    let twice = lint(once.config.clone()).unwrap();
    assert_eq!(twice.config, once.config);
    assert_eq!(twice.renames, vec![]);
}

#[test]
fn rules_leave_the_other_domains_alone() {
    let s = Some(settings(Some(true), Some(true)));
    let c = config(
        vec![ty("user_profile", &[("user_name", "Int")])],
        vec![en("color_kind", &[("red", 1)])],
        s,
    );
    assert_eq!(
        field_lint(c.clone(), true).to_result().unwrap().config,
        config(
            vec![ty("user_profile", &[("userName", "Int")])],
            vec![en("color_kind", &[("red", 1)])],
            s
        )
    );
    assert_eq!(
        type_lint(c.clone(), true).to_result().unwrap().config,
        config(
            vec![ty("UserProfile", &[("user_name", "Int")])],
            vec![en("color_kind", &[("red", 1)])],
            s
        )
    );
    assert_eq!(
        enum_lint(c.clone(), true).to_result().unwrap().config,
        config(
            vec![ty("user_profile", &[("user_name", "Int")])],
            vec![en("ColorKind", &[("red", 1)])],
            s
        )
    );
    assert_eq!(
        enum_value_lint(c, true).to_result().unwrap().config,
        config(
            vec![ty("user_profile", &[("user_name", "Int")])],
            vec![en("color_kind", &[("RED", 1)])],
            s
        )
    );
}

#[test]
fn settings_resolve_the_style_of_each_domain() {
    let mut l = settings(Some(true), None);
    assert!(!l.is_autofix());
    assert_eq!(l.effective_style(Category::Field), Some(TextCase::CamelCase));
    assert_eq!(l.effective_style(Category::Type), Some(TextCase::PascalCase));
    assert_eq!(l.effective_style(Category::Enum), Some(TextCase::PascalCase));
    assert_eq!(l.effective_style(Category::EnumValue), Some(TextCase::AllCaps));
    l.default = Some(false);
    l.autofix = Some(true);
    l.enum_lint = Some(TextCase::SnakeCase);
    assert!(l.is_autofix());
    assert_eq!(l.effective_style(Category::Field), None);
    assert_eq!(l.effective_style(Category::Enum), Some(TextCase::SnakeCase));
    l.default = None;
    assert_eq!(l.effective_style(Category::Type), None);
}
