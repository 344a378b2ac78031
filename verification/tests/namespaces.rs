use config_lint::case::TextCase;
use config_lint::naming::{
    collision_message, collisions_of, plan_moves, renames_of, violation_message, violations_of,
    Category, Move, Rename,
};

fn names(list: &[&str]) -> Vec<String> {
    list.iter().map(|s| s.to_string()).collect()
}

fn mv(from: &str, to: &str) -> Move {
    Move { from: from.to_string(), to: to.to_string() }
}

#[test]
fn labels_of_the_domains() {
    assert_eq!(Category::Field.label(), "field");
    assert_eq!(Category::Type.label(), "type");
    assert_eq!(Category::Enum.label(), "enum");
    assert_eq!(Category::EnumValue.label(), "enum variant");
    assert_eq!(Category::Field.audit_label(), "field");
    assert_eq!(Category::Type.audit_label(), "type");
    assert_eq!(Category::Enum.audit_label(), "enum");
    assert_eq!(Category::EnumValue.audit_label(), "variant");
}

#[test]
fn built_in_styles_of_the_domains() {
    assert_eq!(Category::Field.default_case(), TextCase::CamelCase);
    assert_eq!(Category::Type.default_case(), TextCase::PascalCase);
    assert_eq!(Category::Enum.default_case(), TextCase::PascalCase);
    assert_eq!(Category::EnumValue.default_case(), TextCase::AllCaps);
}

#[test]
fn violation_message_text() {
    assert_eq!(
        violation_message(Category::Field, "user_name", "userName"),
        "lint failed for field user_name, expected userName"
    );
    assert_eq!(
        violation_message(Category::Type, "user_profile", "UserProfile"),
        "lint failed for type user_profile, expected UserProfile"
    );
    assert_eq!(
        violation_message(Category::Enum, "color_kind", "ColorKind"),
        "lint failed for enum color_kind, expected ColorKind"
    );
    assert_eq!(
        violation_message(Category::EnumValue, "red", "RED"),
        "lint failed for enum variant red, expected RED"
    );
}

#[test]
fn collision_message_text() {
    assert_eq!(
        collision_message(Category::Field, "foo_bar", "fooBar"),
        "rename collision for field foo_bar, fooBar already exists"
    );
}

#[test]
fn rename_message_text() {
    let field = Rename {
        category: Category::Field,
        from: "user_name".to_string(),
        to: "userName".to_string(),
    };
    assert_eq!(field.message(), "field user_name is renamed to userName");
    let variant =
        Rename { category: Category::EnumValue, from: "red".to_string(), to: "RED".to_string() };
    assert_eq!(variant.message(), "variant red is renamed to RED");
}

#[test]
fn plan_converts_every_name_in_order() {
    let moves = plan_moves(&names(&["user_name", "id", "created_at"]), TextCase::CamelCase);
    assert_eq!(
        moves,
        vec![mv("user_name", "userName"), mv("id", "id"), mv("created_at", "createdAt")]
    );
}

#[test]
fn plan_of_no_names_is_empty() {
    assert_eq!(plan_moves(&vec![], TextCase::SnakeCase), vec![]);
}

#[test]
fn three_violations_are_all_reported_in_order() {
    let moves = vec![
        mv("first_name", "firstName"),
        mv("id", "id"),
        mv("last_name", "lastName"),
        mv("email", "email"),
        mv("created_at", "createdAt"),
    ];
    assert_eq!(
        violations_of(Category::Field, &moves),
        vec![
            "lint failed for field first_name, expected firstName".to_string(),
            "lint failed for field last_name, expected lastName".to_string(),
            "lint failed for field created_at, expected createdAt".to_string(),
        ]
    );
}

#[test]
fn no_violation_where_every_name_stays() {
    let moves = vec![mv("id", "id"), mv("email", "email")];
    assert_eq!(violations_of(Category::Field, &moves), Vec::<String>::new());
    assert_eq!(collisions_of(Category::Field, &moves), Vec::<String>::new());
    assert_eq!(renames_of(Category::Field, &moves), vec![]);
}

#[test]
fn renames_record_each_change_in_order() {
    let moves = vec![mv("first_name", "firstName"), mv("id", "id"), mv("last_name", "lastName")];
    assert_eq!(
        renames_of(Category::Field, &moves),
        vec![
            Rename {
                category: Category::Field,
                from: "first_name".to_string(),
                to: "firstName".to_string()
            },
            Rename {
                category: Category::Field,
                from: "last_name".to_string(),
                to: "lastName".to_string()
            },
        ]
    );
}

#[test]
fn rename_onto_a_name_that_stays_collides() {
    let moves = vec![mv("foo_bar", "fooBar"), mv("fooBar", "fooBar")];
    assert_eq!(
        collisions_of(Category::Field, &moves),
        vec!["rename collision for field foo_bar, fooBar already exists".to_string()]
    );
    let moves = vec![mv("fooBar", "fooBar"), mv("foo_bar", "fooBar")];
    assert_eq!(
        collisions_of(Category::Field, &moves),
        vec!["rename collision for field foo_bar, fooBar already exists".to_string()]
    );
}

#[test]
fn two_renames_onto_one_name_both_collide() {
    let moves = vec![mv("foo_bar", "fooBar"), mv("id", "id"), mv("foo-bar", "fooBar")];
    assert_eq!(
        collisions_of(Category::Field, &moves),
        vec![
            "rename collision for field foo_bar, fooBar already exists".to_string(),
            "rename collision for field foo-bar, fooBar already exists".to_string(),
        ]
    );
}

#[test]
fn rename_onto_a_name_that_is_given_up_does_not_collide() {
    let moves = vec![mv("a", "b"), mv("b", "c")];
    assert_eq!(collisions_of(Category::Type, &moves), Vec::<String>::new());
}

#[test]
fn two_entries_of_one_name_that_stay_do_not_collide() {
    let moves = vec![mv("id", "id"), mv("id", "id")];
    assert_eq!(collisions_of(Category::Field, &moves), Vec::<String>::new());
}
