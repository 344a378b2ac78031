//! Laws of the lint, proved of the model.

use crate::case::{converted, in_style, TextCase};
use crate::config::{names, ConfigView, Item};
use crate::model::{
    all_findings, all_renames, all_rules, applied, findings, linted, moved, namespaces, plans_of,
    rule, style_for, then_rule, untouched, LintErrorView, OutcomeView,
};
use crate::naming::{
    clashes, collisions, collisions_among, plan, renames, violation_text, violations, Category,
    MoveView, RenameView,
};
use crate::text::joined;
use crate::valid::Validation;
use vstd::prelude::*;

verus! {

/// Whether no move of a namespace changes its identifier.
pub open spec fn still(moves: Seq<MoveView>) -> bool {
    forall|i: int| 0 <= i < moves.len() ==> !(#[trigger] moves[i]).changes()
}

/// Whether no rename of a namespace lands on a name that another entry will
/// bear.
pub open spec fn clash_free(moves: Seq<MoveView>) -> bool {
    forall|i: int| 0 <= i < moves.len() ==> !clashes(moves, i)
}

/// Whether every identifier of the namespaces is in `style`.
pub open spec fn all_in_style(groups: Seq<Seq<Seq<char>>>, style: TextCase) -> bool {
    forall|g: int, i: int|
        0 <= g < groups.len() && 0 <= i < groups[g].len() ==> in_style(
            #[trigger] groups[g][i],
            style,
        )
}

/// Whether every identifier of the namespaces, once converted into `style`,
/// is in `style`.
pub open spec fn all_stable(groups: Seq<Seq<Seq<char>>>, style: TextCase) -> bool {
    forall|g: int, i: int|
        0 <= g < groups.len() && 0 <= i < groups[g].len() ==> in_style(
            converted(#[trigger] groups[g][i], style),
            style,
        )
}

/// Whether no namespace holds, under `style`, a rename onto a name that
/// another of its entries will bear.
pub open spec fn all_clash_free(groups: Seq<Seq<Seq<char>>>, style: TextCase) -> bool {
    forall|g: int| 0 <= g < groups.len() ==> clash_free(plan(#[trigger] groups[g], style))
}

/// Whether every identifier of a domain is in the style that the settings
/// hold the domain to.
pub open spec fn conforming<F, V>(category: Category, config: ConfigView<F, V>) -> bool {
    match style_for(config, category) {
        None => true,
        Some(style) => all_in_style(namespaces(category, config), style),
    }
}

/// Whether every identifier of a configuration is in the style that the
/// settings hold its domain to.
pub open spec fn settled<F, V>(config: ConfigView<F, V>) -> bool {
    &&& conforming(Category::Field, config)
    &&& conforming(Category::Type, config)
    &&& conforming(Category::Enum, config)
    &&& conforming(Category::EnumValue, config)
}

/// Whether every identifier of a domain becomes, by its conversion, an
/// identifier in the style that the settings hold the domain to.
pub open spec fn stable_in<F, V>(category: Category, config: ConfigView<F, V>) -> bool {
    match style_for(config, category) {
        None => true,
        Some(style) => all_stable(namespaces(category, config), style),
    }
}

/// Whether the conversion of every identifier of a configuration is in the
/// style that the settings hold its domain to.
pub open spec fn stable<F, V>(config: ConfigView<F, V>) -> bool {
    &&& stable_in(Category::Field, config)
    &&& stable_in(Category::Type, config)
    &&& stable_in(Category::Enum, config)
    &&& stable_in(Category::EnumValue, config)
}

/// A configuration with every identifier of one domain converted into the
/// style that the settings hold the domain to.
pub open spec fn fixed<F, V>(category: Category, config: ConfigView<F, V>) -> ConfigView<F, V> {
    match style_for(config, category) {
        None => config,
        Some(style) => applied(category, config, plans_of(namespaces(category, config), style)),
    }
}

/// The configuration after each of the four fixes in their order.
pub open spec fn fixed_through<F, V>(config: ConfigView<F, V>) -> ConfigView<F, V> {
    fixed(
        Category::EnumValue,
        fixed(Category::Enum, fixed(Category::Type, fixed(Category::Field, config))),
    )
}

proof fn lemma_still_has_no_collision(category: Category, moves: Seq<MoveView>, n: nat)
    requires
        still(moves),
        n <= moves.len(),
    ensures
        collisions_among(category, moves, n) == Seq::<Seq<char>>::empty(),
    decreases n,
{
    if n > 0 {
        assert(!moves[n - 1].changes());
        lemma_still_has_no_collision(category, moves, (n - 1) as nat);
    }
}

/// A namespace in which nothing changes has no violation, no collision and
/// no rename.
pub proof fn lemma_still_is_clean(category: Category, moves: Seq<MoveView>)
    requires
        still(moves),
    ensures
        violations(category, moves) == Seq::<Seq<char>>::empty(),
        collisions(category, moves) == Seq::<Seq<char>>::empty(),
        renames(category, moves) == Seq::<RenameView>::empty(),
    decreases moves.len(),
{
    if moves.len() > 0 {
        assert(!moves[moves.len() - 1].changes());
        assert forall|i: int| 0 <= i < moves.drop_last().len() implies !(
        #[trigger] moves.drop_last()[i]).changes() by {
            assert(moves.drop_last()[i] == moves[i]);
        }
        lemma_still_is_clean(category, moves.drop_last());
    }
    lemma_still_has_no_collision(category, moves, moves.len());
}

/// A namespace without violations is one in which nothing changes.
pub proof fn lemma_clean_is_still(category: Category, moves: Seq<MoveView>)
    requires
        violations(category, moves).len() == 0,
    ensures
        still(moves),
    decreases moves.len(),
{
    if moves.len() > 0 {
        lemma_clean_is_still(category, moves.drop_last());
        assert forall|i: int| 0 <= i < moves.len() implies !(#[trigger] moves[i]).changes() by {
            if i < moves.len() - 1 {
                assert(moves.drop_last()[i] == moves[i]);
            }
        }
    }
}

proof fn lemma_collisions_among(category: Category, moves: Seq<MoveView>, n: nat)
    requires
        n <= moves.len(),
    ensures
        collisions_among(category, moves, n).len() == 0 <==> forall|i: int|
            0 <= i < n ==> !clashes(moves, i),
    decreases n,
{
    if n > 0 {
        lemma_collisions_among(category, moves, (n - 1) as nat);
    }
}

/// A namespace has no collision exactly when no rename in it lands on a name
/// that another entry will bear.
pub proof fn lemma_collisions_are_clashes(category: Category, moves: Seq<MoveView>)
    ensures
        collisions(category, moves).len() == 0 <==> clash_free(moves),
{
    lemma_collisions_among(category, moves, moves.len());
}

/// The plans of all namespaces but the last, and the plan of the last.
proof fn lemma_plans_of_last(groups: Seq<Seq<Seq<char>>>, style: TextCase)
    requires
        groups.len() > 0,
    ensures
        plans_of(groups, style).drop_last() == plans_of(groups.drop_last(), style),
        plans_of(groups, style).last() == plan(groups.last(), style),
{
    assert(plans_of(groups, style).drop_last() =~= plans_of(groups.drop_last(), style));
}

/// A domain has no finding exactly when none of its namespaces has one.
proof fn lemma_findings_of_each(category: Category, plans: Seq<Seq<MoveView>>, autofix: bool)
    ensures
        all_findings(category, plans, autofix).len() == 0 <==> forall|g: int|
            0 <= g < plans.len() ==> findings(category, #[trigger] plans[g], autofix).len() == 0,
    decreases plans.len(),
{
    if plans.len() > 0 {
        let before = plans.drop_last();
        lemma_findings_of_each(category, before, autofix);
        if all_findings(category, plans, autofix).len() == 0 {
            assert forall|g: int| 0 <= g < plans.len() implies findings(
                category,
                #[trigger] plans[g],
                autofix,
            ).len() == 0 by {
                if g < plans.len() - 1 {
                    assert(before[g] == plans[g]);
                }
            }
        } else {
            if all_findings(category, before, autofix).len() != 0 {
                let g = choose|g: int|
                    0 <= g < before.len() && findings(category, #[trigger] before[g], autofix).len()
                        != 0;
                assert(before[g] == plans[g]);
            } else {
                assert(plans[plans.len() - 1] == plans.last());
            }
        }
    }
}

/// Plans in which nothing changes hold no finding and no rename.
proof fn lemma_still_plans_are_clean(
    category: Category,
    plans: Seq<Seq<MoveView>>,
    autofix: bool,
)
    requires
        forall|g: int| 0 <= g < plans.len() ==> still(#[trigger] plans[g]),
    ensures
        all_findings(category, plans, autofix) == Seq::<Seq<char>>::empty(),
        all_renames(category, plans) == Seq::<RenameView>::empty(),
    decreases plans.len(),
{
    if plans.len() > 0 {
        let before = plans.drop_last();
        assert forall|g: int| 0 <= g < before.len() implies still(#[trigger] before[g]) by {
            assert(before[g] == plans[g]);
        }
        lemma_still_plans_are_clean(category, before, autofix);
        assert(still(plans[plans.len() - 1]));
        lemma_still_is_clean(category, plans.last());
        assert(all_findings(category, plans, autofix) =~= Seq::<Seq<char>>::empty());
        assert(all_renames(category, plans) =~= Seq::<RenameView>::empty());
    }
}

/// The plans of namespaces whose identifiers are all in their style change
/// nothing.
proof fn lemma_plans_of_styled(groups: Seq<Seq<Seq<char>>>, style: TextCase)
    requires
        all_in_style(groups, style),
    ensures
        forall|g: int| 0 <= g < groups.len() ==> still(#[trigger] plans_of(groups, style)[g]),
{
    assert forall|g: int| 0 <= g < groups.len() implies still(
        #[trigger] plans_of(groups, style)[g],
    ) by {
        let moves = plans_of(groups, style)[g];
        assert forall|i: int| 0 <= i < moves.len() implies !(#[trigger] moves[i]).changes() by {
            assert(in_style(groups[g][i], style));
        }
    }
}

/// A namespace whose identifiers are in the style stays as it is under the
/// moves planned for it.
proof fn lemma_moved_styled<X>(namespace: Seq<Item<X>>, style: TextCase)
    requires
        forall|i: int| 0 <= i < namespace.len() ==> in_style(#[trigger] names(namespace)[i], style),
    ensures
        moved(namespace, plan(names(namespace), style)) == namespace,
{
    let after = moved(namespace, plan(names(namespace), style));
    assert forall|i: int| 0 <= i < namespace.len() implies after[i] == namespace[i] by {
        assert(in_style(names(namespace)[i], style));
    }
    assert(after =~= namespace);
}

/// A domain whose identifiers are in the style stays as it is under the
/// moves planned for it.
proof fn lemma_applied_styled<F, V>(
    category: Category,
    config: ConfigView<F, V>,
    style: TextCase,
)
    requires
        all_in_style(namespaces(category, config), style),
    ensures
        applied(category, config, plans_of(namespaces(category, config), style)) == config,
{
    let groups = namespaces(category, config);
    let plans = plans_of(groups, style);
    let after = applied(category, config, plans);
    match category {
        Category::Field => {
            assert forall|g: int| 0 <= g < config.types.len() implies after.types[g]
                == config.types[g] by {
                assert forall|i: int| 0 <= i < config.types[g].value.len() implies in_style(
                    #[trigger] names(config.types[g].value)[i],
                    style,
                ) by {
                    assert(groups[g][i] == names(config.types[g].value)[i]);
                }
                lemma_moved_styled(config.types[g].value, style);
            }
            assert(after.types =~= config.types);
        },
        Category::Type => {
            assert forall|i: int| 0 <= i < config.types.len() implies in_style(
                #[trigger] names(config.types)[i],
                style,
            ) by {
                assert(groups[0][i] == names(config.types)[i]);
            }
            lemma_moved_styled(config.types, style);
        },
        Category::Enum => {
            assert forall|i: int| 0 <= i < config.enums.len() implies in_style(
                #[trigger] names(config.enums)[i],
                style,
            ) by {
                assert(groups[0][i] == names(config.enums)[i]);
            }
            lemma_moved_styled(config.enums, style);
        },
        Category::EnumValue => {
            assert forall|g: int| 0 <= g < config.enums.len() implies after.enums[g]
                == config.enums[g] by {
                assert forall|i: int| 0 <= i < config.enums[g].value.len() implies in_style(
                    #[trigger] names(config.enums[g].value)[i],
                    style,
                ) by {
                    assert(groups[g][i] == names(config.enums[g].value)[i]);
                }
                lemma_moved_styled(config.enums[g].value, style);
            }
            assert(after.enums =~= config.enums);
        },
    }
}

/// The rule of a domain whose identifiers are all in their style hands the
/// configuration back untouched, as a report and as an automatic fix.
pub proof fn lemma_conforming_domain_passes<F, V>(
    category: Category,
    config: ConfigView<F, V>,
    autofix: bool,
)
    requires
        conforming(category, config),
    ensures
        rule(category, config, autofix) == Validation::Success(untouched(config)),
{
    match style_for(config, category) {
        None => {},
        Some(style) => {
            let groups = namespaces(category, config);
            lemma_plans_of_styled(groups, style);
            lemma_still_plans_are_clean(category, plans_of(groups, style), autofix);
            lemma_applied_styled(category, config, style);
        },
    }
}

/// A configuration whose identifiers are all in their style passes the lint
/// untouched, as a report and as an automatic fix.
pub proof fn lemma_settled_passes<F, V>(config: ConfigView<F, V>)
    requires
        settled(config),
    ensures
        linted(config) == Ok::<OutcomeView<F, V>, LintErrorView>(untouched(config)),
{
    match config.lint {
        None => {},
        Some(lint) => {
            let autofix = lint.fixes();
            let start = Ok::<OutcomeView<F, V>, Seq<char>>(untouched(config));
            lemma_conforming_domain_passes(Category::Field, config, autofix);
            lemma_conforming_domain_passes(Category::Type, config, autofix);
            lemma_conforming_domain_passes(Category::Enum, config, autofix);
            lemma_conforming_domain_passes(Category::EnumValue, config, autofix);
            assert(Seq::<RenameView>::empty() + Seq::<RenameView>::empty() =~= Seq::<
                RenameView,
            >::empty());
            assert(then_rule(start, Category::Field, autofix) == start);
            assert(then_rule(start, Category::Type, autofix) == start);
            assert(then_rule(start, Category::Enum, autofix) == start);
            assert(then_rule(start, Category::EnumValue, autofix) == start);
        },
    }
}

/// What a rule hands back where it succeeds: as a report the configuration
/// itself, which then conforms in the domain of the rule; as an automatic
/// fix the configuration with that domain converted.
pub proof fn lemma_rule_success<F, V>(
    category: Category,
    config: ConfigView<F, V>,
    autofix: bool,
)
    requires
        rule(category, config, autofix) is Success,
    ensures
        !autofix ==> rule(category, config, autofix)->Success_0.config == config && conforming(
            category,
            config,
        ),
        autofix ==> rule(category, config, autofix)->Success_0.config == fixed(category, config),
{
    match style_for(config, category) {
        None => {},
        Some(style) => {
            if !autofix {
                let groups = namespaces(category, config);
                let plans = plans_of(groups, style);
                lemma_findings_of_each(category, plans, false);
                assert forall|g: int, i: int|
                    0 <= g < groups.len() && 0 <= i < groups[g].len() implies in_style(
                    #[trigger] groups[g][i],
                    style,
                ) by {
                    assert(findings(category, plans[g], false).len() == 0);
                    lemma_clean_is_still(category, plans[g]);
                    assert(!plans[g][i].changes());
                }
            }
        },
    }
}

/// Fixing one domain leaves the settings and the names of the other domains
/// as they were.
pub proof fn lemma_fixed_keeps_others<F, V>(
    fixed_one: Category,
    other: Category,
    config: ConfigView<F, V>,
)
    ensures
        fixed(fixed_one, config).lint == config.lint,
        fixed_one != other ==> namespaces(other, fixed(fixed_one, config)) == namespaces(
            other,
            config,
        ),
{
    let after = fixed(fixed_one, config);
    if fixed_one != other {
        assert(namespaces(other, after) =~= namespaces(other, config)) by {
            match style_for(config, fixed_one) {
                None => {},
                Some(style) => {
                    match other {
                        Category::Field => {
                            assert(after.types.len() == config.types.len());
                            assert forall|g: int| 0 <= g < config.types.len() implies names(
                                after.types[g].value,
                            ) == names(config.types[g].value) by {}
                        },
                        Category::Type => {
                            assert(names(after.types) =~= names(config.types));
                        },
                        Category::Enum => {
                            assert(names(after.enums) =~= names(config.enums));
                        },
                        Category::EnumValue => {
                            assert(after.enums.len() == config.enums.len());
                            assert forall|g: int| 0 <= g < config.enums.len() implies names(
                                after.enums[g].value,
                            ) == names(config.enums[g].value) by {}
                        },
                    }
                },
            }
        }
    }
}

/// Fixing a domain whose identifiers are stable leaves it conforming.
pub proof fn lemma_fixed_conforms<F, V>(category: Category, config: ConfigView<F, V>)
    requires
        stable_in(category, config),
    ensures
        conforming(category, fixed(category, config)),
{
    match style_for(config, category) {
        None => {},
        Some(style) => {
            let before = namespaces(category, config);
            let after = namespaces(category, fixed(category, config));
            assert(after.len() == before.len());
            assert forall|g: int, i: int|
                0 <= g < after.len() && 0 <= i < after[g].len() implies in_style(
                #[trigger] after[g][i],
                style,
            ) by {
                assert(after[g].len() == before[g].len());
                assert(after[g][i] == converted(before[g][i], style));
            }
        },
    }
}

/// Fixing one domain changes neither whether another conforms nor whether
/// it is stable.
proof fn lemma_fixed_transfers<F, V>(
    fixed_one: Category,
    other: Category,
    config: ConfigView<F, V>,
)
    requires
        fixed_one != other,
    ensures
        conforming(other, fixed(fixed_one, config)) == conforming(other, config),
        stable_in(other, fixed(fixed_one, config)) == stable_in(other, config),
{
    lemma_fixed_keeps_others(fixed_one, other, config);
}

/// The four fixes in their order leave a stable configuration settled.
pub proof fn lemma_fixed_through_settles<F, V>(config: ConfigView<F, V>)
    requires
        stable(config),
    ensures
        settled(fixed_through(config)),
{
    let c1 = fixed(Category::Field, config);
    let c2 = fixed(Category::Type, c1);
    let c3 = fixed(Category::Enum, c2);
    lemma_fixed_conforms(Category::Field, config);
    lemma_fixed_transfers(Category::Field, Category::Type, config);
    lemma_fixed_transfers(Category::Field, Category::Enum, config);
    lemma_fixed_transfers(Category::Field, Category::EnumValue, config);
    lemma_fixed_conforms(Category::Type, c1);
    lemma_fixed_transfers(Category::Type, Category::Field, c1);
    lemma_fixed_transfers(Category::Type, Category::Enum, c1);
    lemma_fixed_transfers(Category::Type, Category::EnumValue, c1);
    lemma_fixed_conforms(Category::Enum, c2);
    lemma_fixed_transfers(Category::Enum, Category::Field, c2);
    lemma_fixed_transfers(Category::Enum, Category::Type, c2);
    lemma_fixed_transfers(Category::Enum, Category::EnumValue, c2);
    lemma_fixed_conforms(Category::EnumValue, c3);
    lemma_fixed_transfers(Category::EnumValue, Category::Field, c3);
    lemma_fixed_transfers(Category::EnumValue, Category::Type, c3);
    lemma_fixed_transfers(Category::EnumValue, Category::Enum, c3);
}

/// What the four rules hand back where they all succeed: as a report the
/// configuration itself, which is then settled; as an automatic fix the
/// configuration after the four fixes.
pub proof fn lemma_all_rules_success<F, V>(config: ConfigView<F, V>, autofix: bool)
    requires
        all_rules(config, autofix) is Ok,
    ensures
        !autofix ==> all_rules(config, autofix)->Ok_0.config == config && settled(config),
        autofix ==> all_rules(config, autofix)->Ok_0.config == fixed_through(config),
{
    let r0 = Ok::<OutcomeView<F, V>, Seq<char>>(untouched(config));
    let r1 = then_rule(r0, Category::Field, autofix);
    let r2 = then_rule(r1, Category::Type, autofix);
    let r3 = then_rule(r2, Category::Enum, autofix);
    let r4 = then_rule(r3, Category::EnumValue, autofix);
    assert(r4 == all_rules(config, autofix));
    assert(r3 is Ok && r2 is Ok && r1 is Ok);
    let c1 = r1->Ok_0.config;
    let c2 = r2->Ok_0.config;
    let c3 = r3->Ok_0.config;
    lemma_rule_success(Category::Field, config, autofix);
    lemma_rule_success(Category::Type, c1, autofix);
    lemma_rule_success(Category::Enum, c2, autofix);
    lemma_rule_success(Category::EnumValue, c3, autofix);
}

/// Linting what a lint handed back hands it back untouched: the same
/// configuration, and nothing left to rename.
///
/// This is asked of every configuration but those that an automatic fix
/// accepts although some identifier that it converts is not thereby in its
/// style: such an identifier is converted once more by the second lint.
pub proof fn lemma_lint_is_idempotent<F, V>(config: ConfigView<F, V>)
    requires
        (config.lint matches Some(lint) && lint.fixes() && linted(config) is Ok) ==> stable(
            config,
        ),
    ensures
        linted(config) matches Ok(outcome) ==> linted(outcome.config) == Ok::<
            OutcomeView<F, V>,
            LintErrorView,
        >(untouched(outcome.config)),
{
    match config.lint {
        None => {},
        Some(lint) => {
            let autofix = lint.fixes();
            if all_rules(config, autofix) is Ok {
                lemma_all_rules_success(config, autofix);
                let after = all_rules(config, autofix)->Ok_0.config;
                if autofix {
                    lemma_fixed_through_settles(config);
                }
                lemma_settled_passes(after);
            }
        },
    }
}

/// The violations of two rows of moves, one after the other, are those of
/// the first and then those of the second.
proof fn lemma_violations_of_both(category: Category, first: Seq<MoveView>, second: Seq<MoveView>)
    ensures
        violations(category, first + second) == violations(category, first) + violations(
            category,
            second,
        ),
    decreases second.len(),
{
    if second.len() == 0 {
        assert(first + second =~= first);
        assert(violations(category, first) + violations(category, second) =~= violations(
            category,
            first,
        ));
    } else {
        lemma_violations_of_both(category, first, second.drop_last());
        assert((first + second).drop_last() =~= first + second.drop_last());
        assert((first + second).last() == second.last());
        assert(violations(category, first + second) =~= violations(category, first) + violations(
            category,
            second,
        ));
    }
}

/// In a report the diagnostics of a domain are the violations of all its
/// identifiers in one row, namespace after namespace.
pub proof fn lemma_report_goes_through_all(
    category: Category,
    groups: Seq<Seq<Seq<char>>>,
    style: TextCase,
)
    ensures
        all_findings(category, plans_of(groups, style), false) == violations(
            category,
            plan(groups.flatten(), style),
        ),
    decreases groups.len(),
{
    groups.lemma_flatten_and_flatten_alt_are_equivalent();
    if groups.len() == 0 {
        assert(plan(groups.flatten_alt(), style) =~= Seq::<MoveView>::empty());
        assert(plans_of(groups, style) =~= Seq::<Seq<MoveView>>::empty());
    } else {
        let before = groups.drop_last();
        lemma_report_goes_through_all(category, before, style);
        before.lemma_flatten_and_flatten_alt_are_equivalent();
        lemma_plans_of_last(groups, style);
        assert(plan(groups.flatten_alt(), style) =~= plan(before.flatten_alt(), style) + plan(
            groups.last(),
            style,
        ));
        lemma_violations_of_both(
            category,
            plan(before.flatten_alt(), style),
            plan(groups.last(), style),
        );
    }
}

/// A row of moves of which exactly three change has exactly their three
/// violations, in the order of the row.
pub proof fn lemma_three_violations(
    category: Category,
    moves: Seq<MoveView>,
    a: int,
    b: int,
    c: int,
)
    requires
        0 <= a < b < c < moves.len(),
        forall|i: int|
            0 <= i < moves.len() ==> ((#[trigger] moves[i]).changes() <==> (i == a || i == b || i
                == c)),
    ensures
        violations(category, moves) == seq![
            violation_text(category, moves[a].from, moves[a].to),
            violation_text(category, moves[b].from, moves[b].to),
            violation_text(category, moves[c].from, moves[c].to),
        ],
{
    let ta = violation_text(category, moves[a].from, moves[a].to);
    let tb = violation_text(category, moves[b].from, moves[b].to);
    let tc = violation_text(category, moves[c].from, moves[c].to);
    let head = moves.subrange(0, a);
    let mid_ab = moves.subrange(a + 1, b);
    let mid_bc = moves.subrange(b + 1, c);
    let tail = moves.subrange(c + 1, moves.len() as int);
    assert(still(head)) by {
        assert forall|i: int| 0 <= i < head.len() implies !(#[trigger] head[i]).changes() by {
            assert(head[i] == moves[i]);
        }
    }
    assert(still(mid_ab)) by {
        assert forall|i: int| 0 <= i < mid_ab.len() implies !(#[trigger] mid_ab[i]).changes() by {
            assert(mid_ab[i] == moves[a + 1 + i]);
        }
    }
    assert(still(mid_bc)) by {
        assert forall|i: int| 0 <= i < mid_bc.len() implies !(#[trigger] mid_bc[i]).changes() by {
            assert(mid_bc[i] == moves[b + 1 + i]);
        }
    }
    assert(still(tail)) by {
        assert forall|i: int| 0 <= i < tail.len() implies !(#[trigger] tail[i]).changes() by {
            assert(tail[i] == moves[c + 1 + i]);
        }
    }
    lemma_still_is_clean(category, head);
    lemma_still_is_clean(category, mid_ab);
    lemma_still_is_clean(category, mid_bc);
    lemma_still_is_clean(category, tail);
    let ma = seq![moves[a]];
    let mb = seq![moves[b]];
    let mc = seq![moves[c]];
    assert(violations(category, ma) =~= seq![ta]) by {
        assert(ma.drop_last() =~= Seq::<MoveView>::empty());
        assert(violations(category, ma.drop_last()) =~= Seq::<Seq<char>>::empty());
        assert(ma.last() == moves[a]);
        assert(moves[a].changes());
    }
    assert(violations(category, mb) =~= seq![tb]) by {
        assert(mb.drop_last() =~= Seq::<MoveView>::empty());
        assert(violations(category, mb.drop_last()) =~= Seq::<Seq<char>>::empty());
        assert(mb.last() == moves[b]);
        assert(moves[b].changes());
    }
    assert(violations(category, mc) =~= seq![tc]) by {
        assert(mc.drop_last() =~= Seq::<MoveView>::empty());
        assert(violations(category, mc.drop_last()) =~= Seq::<Seq<char>>::empty());
        assert(mc.last() == moves[c]);
        assert(moves[c].changes());
    }
    let s1 = head + ma;
    let s2 = s1 + mid_ab;
    let s3 = s2 + mb;
    let s4 = s3 + mid_bc;
    let s5 = s4 + mc;
    let s6 = s5 + tail;
    assert(s6 =~= moves);
    lemma_violations_of_both(category, head, ma);
    lemma_violations_of_both(category, s1, mid_ab);
    lemma_violations_of_both(category, s2, mb);
    lemma_violations_of_both(category, s3, mid_bc);
    lemma_violations_of_both(category, s4, mc);
    lemma_violations_of_both(category, s5, tail);
    assert(violations(category, moves) =~= seq![ta, tb, tc]);
}

/// Three texts joined are the three with the separator between them.
proof fn lemma_joined_three(a: Seq<char>, b: Seq<char>, c: Seq<char>, separator: Seq<char>)
    ensures
        joined(seq![a, b, c], separator) == a + separator + b + separator + c,
{
    let three = seq![a, b, c];
    let two = three.drop_last();
    let one = two.drop_last();
    assert(two =~= seq![a, b]);
    assert(one =~= seq![a]);
    assert(joined(one, separator) == a);
    assert(joined(two, separator) == a + separator + b);
}

/// A report on a domain of which exactly three identifiers are not in their
/// style fails, and its diagnostic holds the three violations, each on its
/// line, in the order in which the domain holds the identifiers, and nothing
/// else.
pub proof fn lemma_report_of_three<F, V>(
    category: Category,
    config: ConfigView<F, V>,
    style: TextCase,
    a: int,
    b: int,
    c: int,
)
    requires
        style_for(config, category) == Some(style),
        0 <= a < b < c < namespaces(category, config).flatten().len(),
        forall|i: int|
            0 <= i < namespaces(category, config).flatten().len() ==> (in_style(
                #[trigger] namespaces(category, config).flatten()[i],
                style,
            ) <==> (i != a && i != b && i != c)),
    ensures
        rule(category, config, false) == Validation::<OutcomeView<F, V>>::Failure(
            seq![
                violation_text(
                    category,
                    namespaces(category, config).flatten()[a],
                    converted(namespaces(category, config).flatten()[a], style),
                ) + "\n"@ + violation_text(
                    category,
                    namespaces(category, config).flatten()[b],
                    converted(namespaces(category, config).flatten()[b], style),
                ) + "\n"@ + violation_text(
                    category,
                    namespaces(category, config).flatten()[c],
                    converted(namespaces(category, config).flatten()[c], style),
                ),
            ],
        ),
{
    let all = namespaces(category, config).flatten();
    let moves = plan(all, style);
    lemma_report_goes_through_all(category, namespaces(category, config), style);
    assert forall|i: int| 0 <= i < moves.len() implies ((#[trigger] moves[i]).changes() <==> (i
        == a || i == b || i == c)) by {
        assert(in_style(all[i], style) <==> (i != a && i != b && i != c));
    }
    lemma_three_violations(category, moves, a, b, c);
    lemma_joined_three(
        violation_text(category, all[a], converted(all[a], style)),
        violation_text(category, all[b], converted(all[b], style)),
        violation_text(category, all[c], converted(all[c], style)),
        "\n"@,
    );
}

/// An automatic fix succeeds exactly on a domain in which no rename lands on
/// a name that another entry of its namespace will bear.
pub proof fn lemma_fix_succeeds_when_clash_free<F, V>(
    category: Category,
    config: ConfigView<F, V>,
    style: TextCase,
)
    requires
        style_for(config, category) == Some(style),
    ensures
        rule(category, config, true) is Success <==> all_clash_free(
            namespaces(category, config),
            style,
        ),
{
    let groups = namespaces(category, config);
    let plans = plans_of(groups, style);
    lemma_findings_of_each(category, plans, true);
    assert forall|g: int| 0 <= g < groups.len() implies (findings(
        category,
        #[trigger] plans[g],
        true,
    ).len() == 0 <==> clash_free(plan(groups[g], style))) by {
        lemma_collisions_are_clashes(category, plan(groups[g], style));
    }
    if all_clash_free(groups, style) {
        assert forall|g: int| 0 <= g < plans.len() implies findings(
            category,
            #[trigger] plans[g],
            true,
        ).len() == 0 by {
            assert(clash_free(plan(groups[g], style)));
        }
    }
    if rule(category, config, true) is Success {
        assert forall|g: int| 0 <= g < groups.len() implies clash_free(
            plan(#[trigger] groups[g], style),
        ) by {
            assert(findings(category, plans[g], true).len() == 0);
        }
    }
}

/// A rename onto a name that another entry of the namespace will bear fails
/// the automatic fix; nothing is renamed.
pub proof fn lemma_clash_fails_the_fix<F, V>(
    category: Category,
    config: ConfigView<F, V>,
    style: TextCase,
    g: int,
    i: int,
)
    requires
        style_for(config, category) == Some(style),
        0 <= g < namespaces(category, config).len(),
        0 <= i < namespaces(category, config)[g].len(),
        clashes(plan(namespaces(category, config)[g], style), i),
    ensures
        rule(category, config, true) is Failure,
{
    lemma_fix_succeeds_when_clash_free(category, config, style);
}

/// An automatic fix that succeeds on a namespace whose names differ from
/// each other leaves names that differ from each other: no entry takes the
/// name of another.
pub proof fn lemma_fix_keeps_names_apart(names: Seq<Seq<char>>, style: TextCase)
    requires
        names.no_duplicates(),
        clash_free(plan(names, style)),
    ensures
        names.map_values(|name: Seq<char>| converted(name, style)).no_duplicates(),
{
    let moves = plan(names, style);
    let after = names.map_values(|name: Seq<char>| converted(name, style));
    assert forall|i: int, j: int| 0 <= i < after.len() && 0 <= j < after.len() && i != j implies
        after[i] != after[j] by {
        if after[i] == after[j] {
            assert(moves[i].to == moves[j].to);
            assert(!clashes(moves, i));
            assert(!clashes(moves, j));
            assert(names[i] != names[j]);
        }
    }
}

/// What a fix leaves of a configuration: the settings, and every entry in
/// its place, holding what it held.
pub proof fn lemma_fixed_keeps_entries<F, V>(category: Category, config: ConfigView<F, V>)
    ensures
        fixed(category, config).lint == config.lint,
        fixed(category, config).types.len() == config.types.len(),
        fixed(category, config).enums.len() == config.enums.len(),
        forall|t: int|
            0 <= t < config.types.len() ==> (#[trigger] fixed(
                category,
                config,
            ).types[t]).value.len() == config.types[t].value.len(),
        forall|t: int, f: int|
            0 <= t < config.types.len() && 0 <= f < config.types[t].value.len() ==> (
            #[trigger] fixed(category, config).types[t].value[f]).value
                == config.types[t].value[f].value,
        forall|e: int|
            0 <= e < config.enums.len() ==> (#[trigger] fixed(
                category,
                config,
            ).enums[e]).value.len() == config.enums[e].value.len(),
        forall|e: int, v: int|
            0 <= e < config.enums.len() && 0 <= v < config.enums[e].value.len() ==> (
            #[trigger] fixed(category, config).enums[e].value[v]).value
                == config.enums[e].value[v].value,
{
}

/// Whether no rename in a domain lands on a name that another entry of its
/// namespace will bear, under the style that the settings hold the domain to.
pub open spec fn fixable_in<F, V>(category: Category, config: ConfigView<F, V>) -> bool {
    match style_for(config, category) {
        None => true,
        Some(style) => all_clash_free(namespaces(category, config), style),
    }
}

/// Whether an automatic fix can rename in every domain without giving two
/// entries of one namespace the same name.
pub open spec fn fixable<F, V>(config: ConfigView<F, V>) -> bool {
    &&& fixable_in(Category::Field, config)
    &&& fixable_in(Category::Type, config)
    &&& fixable_in(Category::Enum, config)
    &&& fixable_in(Category::EnumValue, config)
}

/// A report accepts a configuration exactly when every identifier is in the
/// style that the settings hold its domain to.
pub proof fn lemma_report_accepts_the_settled<F, V>(config: ConfigView<F, V>)
    requires
        config.lint matches Some(lint) && !lint.fixes(),
    ensures
        linted(config) is Ok <==> settled(config),
{
    if settled(config) {
        lemma_settled_passes(config);
    }
    if all_rules(config, false) is Ok {
        lemma_all_rules_success(config, false);
    }
}

/// The rule of a domain succeeds as an automatic fix exactly when the domain
/// is fixable, and then hands back the configuration with the domain fixed.
proof fn lemma_fix_of_domain<F, V>(category: Category, config: ConfigView<F, V>)
    ensures
        rule(category, config, true) is Success <==> fixable_in(category, config),
        rule(category, config, true) is Success ==> rule(
            category,
            config,
            true,
        )->Success_0.config == fixed(category, config),
{
    match style_for(config, category) {
        None => {},
        Some(style) => {
            lemma_fix_succeeds_when_clash_free(category, config, style);
        },
    }
}

/// Fixing one domain does not change whether another is fixable.
proof fn lemma_fixable_transfers<F, V>(
    fixed_one: Category,
    other: Category,
    config: ConfigView<F, V>,
)
    requires
        fixed_one != other,
    ensures
        fixable_in(other, fixed(fixed_one, config)) == fixable_in(other, config),
{
    lemma_fixed_keeps_others(fixed_one, other, config);
}

/// An automatic fix accepts a configuration exactly when in none of its
/// namespaces a rename lands on a name that another entry will bear.
pub proof fn lemma_fix_accepts_the_fixable<F, V>(config: ConfigView<F, V>)
    requires
        config.lint matches Some(lint) && lint.fixes(),
    ensures
        linted(config) is Ok <==> fixable(config),
{
    let c1 = fixed(Category::Field, config);
    let c2 = fixed(Category::Type, c1);
    let c3 = fixed(Category::Enum, c2);
    lemma_fixable_transfers(Category::Field, Category::Type, config);
    lemma_fixable_transfers(Category::Field, Category::Enum, config);
    lemma_fixable_transfers(Category::Field, Category::EnumValue, config);
    lemma_fixable_transfers(Category::Type, Category::Enum, c1);
    lemma_fixable_transfers(Category::Type, Category::EnumValue, c1);
    lemma_fixable_transfers(Category::Enum, Category::EnumValue, c2);
    lemma_fix_of_domain(Category::Field, config);
    lemma_fix_of_domain(Category::Type, c1);
    lemma_fix_of_domain(Category::Enum, c2);
    lemma_fix_of_domain(Category::EnumValue, c3);
    let r0 = Ok::<OutcomeView<F, V>, Seq<char>>(untouched(config));
    let r1 = then_rule(r0, Category::Field, true);
    let r2 = then_rule(r1, Category::Type, true);
    let r3 = then_rule(r2, Category::Enum, true);
    let r4 = then_rule(r3, Category::EnumValue, true);
    assert(r4 == all_rules(config, true));
    if r1 is Ok {
        assert(r1->Ok_0.config == c1);
        if r2 is Ok {
            assert(r2->Ok_0.config == c2);
            if r3 is Ok {
                assert(r3->Ok_0.config == c3);
            }
        }
    }
}

/// The names of a namespace after the moves planned for it are the
/// conversions of its names.
proof fn lemma_moved_names<X>(namespace: Seq<Item<X>>, style: TextCase)
    ensures
        names(moved(namespace, plan(names(namespace), style))) == names(namespace).map_values(
            |name: Seq<char>| converted(name, style),
        ),
{
    assert(names(moved(namespace, plan(names(namespace), style))) =~= names(
        namespace,
    ).map_values(|name: Seq<char>| converted(name, style)));
}

/// A namespace whose names differ from each other and which can be fixed
/// has, once fixed, names that differ from each other.
proof fn lemma_moved_stays_distinct<X>(namespace: Seq<Item<X>>, style: TextCase)
    requires
        names(namespace).no_duplicates(),
        clash_free(plan(names(namespace), style)),
    ensures
        names(moved(namespace, plan(names(namespace), style))).no_duplicates(),
{
    lemma_moved_names(namespace, style);
    lemma_fix_keeps_names_apart(names(namespace), style);
}

/// Fixing a domain that can be fixed keeps a configuration well formed: no
/// entry takes the name of another, and none is lost.
pub proof fn lemma_fixed_stays_well_formed<F, V>(category: Category, config: ConfigView<F, V>)
    requires
        config.well_formed(),
        fixable_in(category, config),
    ensures
        fixed(category, config).well_formed(),
{
    match style_for(config, category) {
        None => {},
        Some(style) => {
            let groups = namespaces(category, config);
            let after = fixed(category, config);
            match category {
                Category::Field => {
                    assert(names(after.types) =~= names(config.types));
                    assert forall|t: int| 0 <= t < after.types.len() implies names(
                        (#[trigger] after.types[t]).value,
                    ).no_duplicates() by {
                        assert(names(config.types[t].value).no_duplicates());
                        assert(clash_free(plan(groups[t], style)));
                        lemma_moved_stays_distinct(config.types[t].value, style);
                    }
                },
                Category::Type => {
                    assert(clash_free(plan(groups[0], style)));
                    lemma_moved_stays_distinct(config.types, style);
                    assert forall|t: int| 0 <= t < after.types.len() implies names(
                        (#[trigger] after.types[t]).value,
                    ).no_duplicates() by {
                        assert(names(config.types[t].value).no_duplicates());
                    }
                },
                Category::Enum => {
                    assert(clash_free(plan(groups[0], style)));
                    lemma_moved_stays_distinct(config.enums, style);
                    assert forall|e: int| 0 <= e < after.enums.len() implies names(
                        (#[trigger] after.enums[e]).value,
                    ).no_duplicates() by {
                        assert(names(config.enums[e].value).no_duplicates());
                    }
                },
                Category::EnumValue => {
                    assert(names(after.enums) =~= names(config.enums));
                    assert forall|e: int| 0 <= e < after.enums.len() implies names(
                        (#[trigger] after.enums[e]).value,
                    ).no_duplicates() by {
                        assert(names(config.enums[e].value).no_duplicates());
                        assert(clash_free(plan(groups[e], style)));
                        lemma_moved_stays_distinct(config.enums[e].value, style);
                    }
                },
            }
        },
    }
}

/// A rule that succeeds on a well-formed configuration hands back a
/// well-formed configuration.
pub proof fn lemma_rule_keeps_well_formed<F, V>(
    category: Category,
    config: ConfigView<F, V>,
    autofix: bool,
)
    requires
        config.well_formed(),
        rule(category, config, autofix) is Success,
    ensures
        rule(category, config, autofix)->Success_0.config.well_formed(),
{
    lemma_rule_success(category, config, autofix);
    if autofix {
        lemma_fix_of_domain(category, config);
        lemma_fixed_stays_well_formed(category, config);
    }
}

/// A lint that accepts a well-formed configuration hands back a well-formed
/// configuration.
pub proof fn lemma_lint_keeps_well_formed<F, V>(config: ConfigView<F, V>)
    requires
        config.well_formed(),
        linted(config) is Ok,
    ensures
        linted(config)->Ok_0.config.well_formed(),
{
    match config.lint {
        None => {},
        Some(lint) => {
            let autofix = lint.fixes();
            let r0 = Ok::<OutcomeView<F, V>, Seq<char>>(untouched(config));
            let r1 = then_rule(r0, Category::Field, autofix);
            let r2 = then_rule(r1, Category::Type, autofix);
            let r3 = then_rule(r2, Category::Enum, autofix);
            let r4 = then_rule(r3, Category::EnumValue, autofix);
            assert(r4 == all_rules(config, autofix));
            assert(r3 is Ok && r2 is Ok && r1 is Ok);
            lemma_rule_keeps_well_formed(Category::Field, config, autofix);
            lemma_rule_keeps_well_formed(Category::Type, r1->Ok_0.config, autofix);
            lemma_rule_keeps_well_formed(Category::Enum, r2->Ok_0.config, autofix);
            lemma_rule_keeps_well_formed(Category::EnumValue, r3->Ok_0.config, autofix);
        },
    }
}

} // verus!
