//! What the lint is: each rule, and the four of them in a row, as a function
//! of the configuration.
//!
//! A rule works in two steps. It plans the moves of every namespace of its
//! domain, which is where identifiers are converted. Then it reads the plans:
//! what they hold decides whether the rule fails, and what the configuration
//! becomes. The second step is a function of the plans as they stand.

use crate::case::TextCase;
use crate::config::{names, ConfigView, Item};
use crate::naming::{collisions, plan, renames, violations, Category, MoveView, RenameView};
use crate::text::joined;
use crate::valid::Validation;
use vstd::prelude::*;

verus! {

/// What a rule or the lint hands back where it succeeds.
pub struct OutcomeView<F, V> {
    pub config: ConfigView<F, V>,
    pub renames: Seq<RenameView>,
}

/// Why a lint refused a configuration.
pub enum LintErrorView {
    LintViolation(Seq<char>),
    RenameCollision(Seq<char>),
}

/// The configuration as it is, with nothing renamed.
pub open spec fn untouched<F, V>(config: ConfigView<F, V>) -> OutcomeView<F, V> {
    OutcomeView { config, renames: Seq::empty() }
}

/// The diagnostics of one namespace: under an automatic fix the renames
/// whose target is taken, else the identifiers that are not in their style.
pub open spec fn findings(category: Category, moves: Seq<MoveView>, autofix: bool) -> Seq<
    Seq<char>,
> {
    if autofix {
        collisions(category, moves)
    } else {
        violations(category, moves)
    }
}

/// The diagnostics of the plans of a domain, namespace after namespace.
pub open spec fn all_findings(category: Category, plans: Seq<Seq<MoveView>>, autofix: bool) -> Seq<
    Seq<char>,
>
    decreases plans.len(),
{
    if plans.len() == 0 {
        Seq::empty()
    } else {
        all_findings(category, plans.drop_last(), autofix) + findings(
            category,
            plans.last(),
            autofix,
        )
    }
}

/// The records of the renames that the plans of a domain hold, namespace
/// after namespace.
pub open spec fn all_renames(category: Category, plans: Seq<Seq<MoveView>>) -> Seq<RenameView>
    decreases plans.len(),
{
    if plans.len() == 0 {
        Seq::empty()
    } else {
        all_renames(category, plans.drop_last()) + renames(category, plans.last())
    }
}

/// A namespace after its moves: entry `i` bears the target of move `i`, and
/// an entry without a move keeps its name. Every entry stays in its place
/// and keeps what it holds.
pub open spec fn moved<X>(namespace: Seq<Item<X>>, moves: Seq<MoveView>) -> Seq<Item<X>> {
    Seq::new(
        namespace.len(),
        |i: int|
            if i < moves.len() {
                Item { name: moves[i].to, value: namespace[i].value }
            } else {
                namespace[i]
            },
    )
}

/// Named namespaces after their moves: plan `g` is for namespace `g`, and a
/// namespace without a plan stays as it is.
pub open spec fn moved_within<X>(
    holders: Seq<Item<Seq<Item<X>>>>,
    plans: Seq<Seq<MoveView>>,
) -> Seq<Item<Seq<Item<X>>>> {
    Seq::new(
        holders.len(),
        |g: int|
            if g < plans.len() {
                Item { name: holders[g].name, value: moved(holders[g].value, plans[g]) }
            } else {
                holders[g]
            },
    )
}

/// The one namespace of types or of enums after the first of the plans.
pub open spec fn moved_by_first<X>(namespace: Seq<Item<X>>, plans: Seq<Seq<MoveView>>) -> Seq<
    Item<X>,
> {
    if plans.len() > 0 {
        moved(namespace, plans[0])
    } else {
        namespace
    }
}

/// A configuration after the moves that are planned for one of its domains.
pub open spec fn applied<F, V>(
    category: Category,
    config: ConfigView<F, V>,
    plans: Seq<Seq<MoveView>>,
) -> ConfigView<F, V> {
    match category {
        Category::Field => ConfigView { types: moved_within(config.types, plans), ..config },
        Category::Type => ConfigView { types: moved_by_first(config.types, plans), ..config },
        Category::Enum => ConfigView { enums: moved_by_first(config.enums, plans), ..config },
        Category::EnumValue => ConfigView { enums: moved_within(config.enums, plans), ..config },
    }
}

/// What a rule makes of a configuration and the plans for its domain.
///
/// Any diagnostic fails the rule, and the failure holds all the diagnostics,
/// one per line, in the order in which the plans hold them. With none, a
/// report leaves the configuration untouched, and an automatic fix makes
/// every move and records each rename.
pub open spec fn verdict<F, V>(
    category: Category,
    config: ConfigView<F, V>,
    plans: Seq<Seq<MoveView>>,
    autofix: bool,
) -> Validation<OutcomeView<F, V>> {
    let found = all_findings(category, plans, autofix);
    if found.len() > 0 {
        Validation::Failure(seq![joined(found, "\n"@)])
    } else if autofix {
        Validation::Success(
            OutcomeView {
                config: applied(category, config, plans),
                renames: all_renames(category, plans),
            },
        )
    } else {
        Validation::Success(untouched(config))
    }
}

/// The namespaces of a domain, each as the list of its names: the fields of
/// each type, the types, the enums, the variants of each enum.
pub open spec fn namespaces<F, V>(category: Category, config: ConfigView<F, V>) -> Seq<
    Seq<Seq<char>>,
> {
    match category {
        Category::Field => config.types.map_values(|t: Item<Seq<Item<F>>>| names(t.value)),
        Category::Type => seq![names(config.types)],
        Category::Enum => seq![names(config.enums)],
        Category::EnumValue => config.enums.map_values(|e: Item<Seq<Item<V>>>| names(e.value)),
    }
}

/// The plans of namespaces under `style`: for each namespace the moves of
/// its names.
pub open spec fn plans_of(groups: Seq<Seq<Seq<char>>>, style: TextCase) -> Seq<Seq<MoveView>> {
    groups.map_values(|names: Seq<Seq<char>>| plan(names, style))
}

/// The style that the settings of a configuration hold a domain to.
pub open spec fn style_for<F, V>(config: ConfigView<F, V>, category: Category) -> Option<
    TextCase,
> {
    match config.lint {
        Some(lint) => lint.style_of(category),
        None => None,
    }
}

/// What the rule of a domain makes of a configuration.
///
/// Where the settings hold the domain to no style, the configuration comes
/// back untouched. Else the rule plans the moves of every namespace of the
/// domain under that style, and gives its verdict on them.
pub open spec fn rule<F, V>(category: Category, config: ConfigView<F, V>, autofix: bool)
    -> Validation<OutcomeView<F, V>> {
    match style_for(config, category) {
        None => Validation::Success(untouched(config)),
        Some(style) => verdict(
            category,
            config,
            plans_of(namespaces(category, config), style),
            autofix,
        ),
    }
}

/// What the rule of `category` makes of what the rules before it made: an
/// error stays, and the rule is not run; else the rule takes the
/// configuration as the rules before it left it, and its renames follow
/// theirs.
pub open spec fn then_rule<F, V>(
    so_far: Result<OutcomeView<F, V>, Seq<char>>,
    category: Category,
    autofix: bool,
) -> Result<OutcomeView<F, V>, Seq<char>> {
    match so_far {
        Err(message) => Err(message),
        Ok(done) => match rule(category, done.config, autofix).collapsed() {
            Err(message) => Err(message),
            Ok(next) => Ok(
                OutcomeView { config: next.config, renames: done.renames + next.renames },
            ),
        },
    }
}

/// The four rules in their order: fields, types, enums, enum variants.
pub open spec fn all_rules<F, V>(config: ConfigView<F, V>, autofix: bool) -> Result<
    OutcomeView<F, V>,
    Seq<char>,
> {
    then_rule(
        then_rule(
            then_rule(
                then_rule(Ok(untouched(config)), Category::Field, autofix),
                Category::Type,
                autofix,
            ),
            Category::Enum,
            autofix,
        ),
        Category::EnumValue,
        autofix,
    )
}

/// The error for the message of a rule that failed: in a report a violation,
/// under an automatic fix a collision.
pub open spec fn refusal(message: Seq<char>, autofix: bool) -> LintErrorView {
    if autofix {
        LintErrorView::RenameCollision(message)
    } else {
        LintErrorView::LintViolation(message)
    }
}

/// What the lint makes of a configuration.
///
/// Without lint settings the configuration comes back untouched. Else the
/// four rules run in their order, each on what the one before it left, and
/// the first failure ends the lint.
pub open spec fn linted<F, V>(config: ConfigView<F, V>) -> Result<
    OutcomeView<F, V>,
    LintErrorView,
> {
    match config.lint {
        None => Ok(untouched(config)),
        Some(lint) => match all_rules(config, lint.fixes()) {
            Ok(outcome) => Ok(outcome),
            Err(message) => Err(refusal(message, lint.fixes())),
        },
    }
}

} // verus!
