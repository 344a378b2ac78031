//! The four naming rules and the lint that runs them.

use crate::case::TextCase;
use crate::config::{
    entry_names, enum_items, items, names, names_of, type_items, Config, Entry, Enum, Item, Type,
};
use crate::laws::{lemma_lint_keeps_well_formed, lemma_rule_keeps_well_formed};
use crate::model::{
    all_findings, all_renames, applied, linted, moved, moved_within, namespaces, plans_of,
    refusal, rule, then_rule, untouched, verdict, LintErrorView, OutcomeView,
};
use crate::naming::{
    collisions_of, move_views, plan_moves, plan_views, rename_views, renames_of, violations_of,
    Category, Move, Rename,
};
use crate::text::{join, texts};
use crate::valid::{Valid, Validation};
use vstd::prelude::*;

verus! {

/// What a rule or the lint hands back where it succeeds: the configuration,
/// and the record of each rename that was made, in the order in which they
/// were made.
#[derive(Clone, Debug, PartialEq, Eq)]
pub struct Outcome<F, V> {
    pub config: Config<F, V>,
    pub renames: Vec<Rename>,
}

impl<F, V> View for Outcome<F, V> {
    type V = OutcomeView<F, V>;

    open spec fn view(&self) -> OutcomeView<F, V> {
        OutcomeView { config: self.config@, renames: rename_views(self.renames@) }
    }
}

/// A validation of an outcome as contracts see it.
pub open spec fn outcome_of<F, V>(validation: Validation<Outcome<F, V>>) -> Validation<
    OutcomeView<F, V>,
> {
    match validation {
        Validation::Success(outcome) => Validation::Success(outcome@),
        Validation::Failure(diagnostics) => Validation::Failure(diagnostics),
    }
}

/// Why a lint refused a configuration. The message holds one diagnostic per
/// line.
#[derive(Clone, Debug, PartialEq, Eq)]
pub enum LintError {
    /// A report found identifiers that are not in their style.
    LintViolation(String),
    /// An automatic fix would have given two entries of one namespace the
    /// same name.
    RenameCollision(String),
}

impl View for LintError {
    type V = LintErrorView;

    open spec fn view(&self) -> LintErrorView {
        match self {
            LintError::LintViolation(message) => LintErrorView::LintViolation(message@),
            LintError::RenameCollision(message) => LintErrorView::RenameCollision(message@),
        }
    }
}

impl LintError {
    /// The message: one diagnostic per line.
    pub fn message(&self) -> (out: &String)
        ensures
            self@ matches LintErrorView::LintViolation(message) ==> out@ == message,
            self@ matches LintErrorView::RenameCollision(message) ==> out@ == message,
    {
        match self {
            LintError::LintViolation(message) => message,
            LintError::RenameCollision(message) => message,
        }
    }
}

/// A result of the lint as contracts see it.
pub open spec fn result_of<F, V>(result: Result<Outcome<F, V>, LintError>) -> Result<
    OutcomeView<F, V>,
    LintErrorView,
> {
    match result {
        Ok(outcome) => Ok(outcome@),
        Err(error) => Err(error@),
    }
}

/// Plans the moves of the fields of every type.
fn plan_fields<F>(types: &Vec<Entry<Type<F>>>, style: TextCase) -> (plans: Vec<Vec<Move>>)
    ensures
        plan_views(plans@) == plans_of(
            type_items(types@).map_values(|t: Item<Seq<Item<F>>>| names(t.value)),
            style,
        ),
{
    let ghost groups = type_items(types@).map_values(|t: Item<Seq<Item<F>>>| names(t.value));
    let mut plans: Vec<Vec<Move>> = Vec::new();
    let mut g: usize = 0;
    while g < types.len()
        invariant
            g <= types.len(),
            groups == type_items(types@).map_values(|t: Item<Seq<Item<F>>>| names(t.value)),
            plan_views(plans@) == plans_of(groups.take(g as int), style),
        decreases types.len() - g,
    {
        let moves = plan_moves(&names_of(&types[g].value.fields), style);
        let ghost before = plan_views(plans@);
        plans.push(moves);
        proof {
            assert(groups[g as int] =~= entry_names(types@[g as int].value.fields@));
            assert(plan_views(plans@) =~= before.push(move_views(moves@)));
            assert(plans_of(groups.take(g + 1), style) =~= before.push(move_views(moves@)));
        }
        g += 1;
    }
    proof {
        assert(groups.take(types.len() as int) =~= groups);
    }
    plans
}

/// Plans the moves of the variants of every enum.
fn plan_variants<V>(enums: &Vec<Entry<Enum<V>>>, style: TextCase) -> (plans: Vec<Vec<Move>>)
    ensures
        plan_views(plans@) == plans_of(
            enum_items(enums@).map_values(|e: Item<Seq<Item<V>>>| names(e.value)),
            style,
        ),
{
    let ghost groups = enum_items(enums@).map_values(|e: Item<Seq<Item<V>>>| names(e.value));
    let mut plans: Vec<Vec<Move>> = Vec::new();
    let mut g: usize = 0;
    while g < enums.len()
        invariant
            g <= enums.len(),
            groups == enum_items(enums@).map_values(|e: Item<Seq<Item<V>>>| names(e.value)),
            plan_views(plans@) == plans_of(groups.take(g as int), style),
        decreases enums.len() - g,
    {
        let moves = plan_moves(&names_of(&enums[g].value.variants), style);
        let ghost before = plan_views(plans@);
        plans.push(moves);
        proof {
            assert(groups[g as int] =~= entry_names(enums@[g as int].value.variants@));
            assert(plan_views(plans@) =~= before.push(move_views(moves@)));
            assert(plans_of(groups.take(g + 1), style) =~= before.push(move_views(moves@)));
        }
        g += 1;
    }
    proof {
        assert(groups.take(enums.len() as int) =~= groups);
    }
    plans
}

/// Plans the moves of the one namespace that a list of entries is.
fn plan_names<T>(entries: &Vec<Entry<T>>, style: TextCase) -> (plans: Vec<Vec<Move>>)
    ensures
        plan_views(plans@) == plans_of(seq![entry_names(entries@)], style),
{
    let moves = plan_moves(&names_of(entries), style);
    let mut plans: Vec<Vec<Move>> = Vec::new();
    plans.push(moves);
    proof {
        assert(plan_views(plans@) =~= seq![move_views(moves@)]);
        assert(plans_of(seq![entry_names(entries@)], style) =~= seq![move_views(moves@)]);
    }
    plans
}

/// Plans the moves of every namespace of a domain under `style`: every
/// identifier of the domain, in its place, with its conversion.
pub fn plan_all<F, V>(category: Category, config: &Config<F, V>, style: TextCase) -> (plans: Vec<
    Vec<Move>,
>)
    ensures
        plan_views(plans@) == plans_of(namespaces(category, config@), style),
{
    match category {
        Category::Field => plan_fields(&config.types, style),
        Category::Type => {
            assert(entry_names(config.types@) =~= names(config@.types));
            plan_names(&config.types, style)
        },
        Category::Enum => {
            assert(entry_names(config.enums@) =~= names(config@.enums));
            plan_names(&config.enums, style)
        },
        Category::EnumValue => plan_variants(&config.enums, style),
    }
}

/// The diagnostics that the plans of a domain hold.
fn findings_of(category: Category, plans: &Vec<Vec<Move>>, autofix: bool) -> (out: Vec<String>)
    ensures
        texts(out@) == all_findings(category, plan_views(plans@), autofix),
{
    let mut out: Vec<String> = Vec::new();
    let mut g: usize = 0;
    assert(texts(out@) =~= Seq::empty());
    while g < plans.len()
        invariant
            g <= plans.len(),
            texts(out@) == all_findings(category, plan_views(plans@).take(g as int), autofix),
        decreases plans.len() - g,
    {
        let mut found = if autofix {
            collisions_of(category, &plans[g])
        } else {
            violations_of(category, &plans[g])
        };
        let ghost before = texts(out@);
        let ghost added = texts(found@);
        out.append(&mut found);
        proof {
            let all = plan_views(plans@);
            assert(texts(out@) =~= before + added);
            assert(all.take(g + 1).drop_last() =~= all.take(g as int));
            assert(all.take(g + 1).last() == move_views(plans@[g as int]@));
        }
        g += 1;
    }
    proof {
        assert(plan_views(plans@).take(plans.len() as int) =~= plan_views(plans@));
    }
    out
}

/// The records of the renames that the plans of a domain hold.
fn records_of(category: Category, plans: &Vec<Vec<Move>>) -> (out: Vec<Rename>)
    ensures
        rename_views(out@) == all_renames(category, plan_views(plans@)),
{
    let mut out: Vec<Rename> = Vec::new();
    let mut g: usize = 0;
    assert(rename_views(out@) =~= Seq::empty());
    while g < plans.len()
        invariant
            g <= plans.len(),
            rename_views(out@) == all_renames(category, plan_views(plans@).take(g as int)),
        decreases plans.len() - g,
    {
        let mut records = renames_of(category, &plans[g]);
        let ghost before = rename_views(out@);
        let ghost added = rename_views(records@);
        out.append(&mut records);
        proof {
            let all = plan_views(plans@);
            assert(rename_views(out@) =~= before + added);
            assert(all.take(g + 1).drop_last() =~= all.take(g as int));
            assert(all.take(g + 1).last() == move_views(plans@[g as int]@));
        }
        g += 1;
    }
    proof {
        assert(plan_views(plans@).take(plans.len() as int) =~= plan_views(plans@));
    }
    out
}

/// Makes the moves of one namespace: entry `i` takes the target of move `i`,
/// and an entry without a move keeps its name. Every entry stays in its
/// place and keeps what it holds.
pub fn rename_all<T>(entries: &mut Vec<Entry<T>>, moves: &Vec<Move>)
    ensures
        final(entries)@.len() == old(entries)@.len(),
        forall|i: int|
            0 <= i < old(entries)@.len() ==> (#[trigger] final(entries)@[i]).value
                == old(entries)@[i].value,
        forall|i: int|
            0 <= i < old(entries)@.len() && i < moves.len() ==> (
            #[trigger] final(entries)@[i]).name@ == moves@[i].to@,
        forall|i: int|
            moves.len() <= i < old(entries)@.len() ==> (#[trigger] final(entries)@[i]).name
                == old(entries)@[i].name,
{
    let mut i: usize = 0;
    while i < entries.len() && i < moves.len()
        invariant
            i <= entries.len(),
            i <= moves.len(),
            entries@.len() == old(entries)@.len(),
            forall|k: int|
                0 <= k < entries.len() ==> (#[trigger] entries@[k]).value == old(entries)@[k].value,
            forall|k: int| 0 <= k < i ==> (#[trigger] entries@[k]).name@ == moves@[k].to@,
            forall|k: int|
                i <= k < entries.len() ==> (#[trigger] entries@[k]).name == old(entries)@[k].name,
        decreases entries.len() - i,
    {
        entries[i].name = moves[i].to.clone();
        i += 1;
    }
}

/// Makes the moves of the fields of every type.
fn rename_fields<F>(types: &mut Vec<Entry<Type<F>>>, plans: &Vec<Vec<Move>>)
    ensures
        type_items(final(types)@) == moved_within(type_items(old(types)@), plan_views(plans@)),
{
    let ghost start = types@;
    let ghost target = moved_within(type_items(start), plan_views(plans@));
    let mut g: usize = 0;
    while g < types.len() && g < plans.len()
        invariant
            g <= types.len(),
            g <= plans.len(),
            types@.len() == start.len(),
            target == moved_within(type_items(start), plan_views(plans@)),
            forall|k: int| 0 <= k < g ==> (#[trigger] type_items(types@)[k]) == target[k],
            forall|k: int| g <= k < start.len() ==> (#[trigger] types@[k]) == start[k],
        decreases types.len() - g,
    {
        let ghost earlier = type_items(types@);
        rename_all(&mut types[g].value.fields, &plans[g]);
        proof {
            let now = types@[g as int].value.fields@;
            let was = start[g as int].value.fields@;
            assert(items(now) =~= moved(items(was), move_views(plans@[g as int]@)));
            assert(type_items(types@)[g as int] == target[g as int]);
            assert forall|k: int| 0 <= k < g implies (#[trigger] type_items(types@)[k])
                == target[k] by {
                assert(type_items(types@)[k] == earlier[k]);
            }
        }
        g += 1;
    }
    proof {
        assert(type_items(types@) =~= target);
    }
}

/// Makes the moves of the variants of every enum.
fn rename_variants<V>(enums: &mut Vec<Entry<Enum<V>>>, plans: &Vec<Vec<Move>>)
    ensures
        enum_items(final(enums)@) == moved_within(enum_items(old(enums)@), plan_views(plans@)),
{
    let ghost start = enums@;
    let ghost target = moved_within(enum_items(start), plan_views(plans@));
    let mut g: usize = 0;
    while g < enums.len() && g < plans.len()
        invariant
            g <= enums.len(),
            g <= plans.len(),
            enums@.len() == start.len(),
            target == moved_within(enum_items(start), plan_views(plans@)),
            forall|k: int| 0 <= k < g ==> (#[trigger] enum_items(enums@)[k]) == target[k],
            forall|k: int| g <= k < start.len() ==> (#[trigger] enums@[k]) == start[k],
        decreases enums.len() - g,
    {
        let ghost earlier = enum_items(enums@);
        rename_all(&mut enums[g].value.variants, &plans[g]);
        proof {
            let now = enums@[g as int].value.variants@;
            let was = start[g as int].value.variants@;
            assert(items(now) =~= moved(items(was), move_views(plans@[g as int]@)));
            assert(enum_items(enums@)[g as int] == target[g as int]);
            assert forall|k: int| 0 <= k < g implies (#[trigger] enum_items(enums@)[k])
                == target[k] by {
                assert(enum_items(enums@)[k] == earlier[k]);
            }
        }
        g += 1;
    }
    proof {
        assert(enum_items(enums@) =~= target);
    }
}

/// Makes the moves that are planned for one domain of a configuration.
fn apply_plans<F, V>(category: Category, config: &mut Config<F, V>, plans: &Vec<Vec<Move>>)
    ensures
        final(config)@ == applied(category, old(config)@, plan_views(plans@)),
{
    let ghost before = config@;
    match category {
        Category::Field => rename_fields(&mut config.types, plans),
        Category::Type => {
            if plans.len() > 0 {
                rename_all(&mut config.types, &plans[0]);
                assert(config@.types =~= moved(before.types, plan_views(plans@)[0]));
            }
        },
        Category::Enum => {
            if plans.len() > 0 {
                rename_all(&mut config.enums, &plans[0]);
                assert(config@.enums =~= moved(before.enums, plan_views(plans@)[0]));
            }
        },
        Category::EnumValue => rename_variants(&mut config.enums, plans),
    }
}

/// Gives the verdict of a rule on a configuration and the plans for its
/// domain.
///
/// Plan `g` is read as the plan of namespace `g` of the domain, and move `i`
/// of it as the move of entry `i`. Any diagnostic in the plans fails the
/// rule, and the failure holds them all, one per line. With none, a report
/// hands the configuration back as it is, and an automatic fix hands it back
/// with every planned move made, together with the record of each rename.
pub fn enforce<F, V>(
    category: Category,
    config: Config<F, V>,
    plans: &Vec<Vec<Move>>,
    autofix: bool,
) -> (out: Valid<Outcome<F, V>>)
    ensures
        outcome_of(out@) == verdict(category, config@, plan_views(plans@), autofix),
{
    let mut config = config;
    let diagnostics = findings_of(category, plans, autofix);
    if diagnostics.len() > 0 {
        Valid::fail(join(&diagnostics, "\n"))
    } else if autofix {
        let renames = records_of(category, plans);
        apply_plans(category, &mut config, plans);
        Valid::succeed(Outcome { config, renames })
    } else {
        keep(config)
    }
}

/// Leaves a configuration as it is.
fn keep<F, V>(config: Config<F, V>) -> (out: Valid<Outcome<F, V>>)
    ensures
        outcome_of(out@) == Validation::Success(untouched(config@)),
{
    let renames: Vec<Rename> = Vec::new();
    assert(rename_views(renames@) =~= Seq::empty());
    Valid::succeed(Outcome { config, renames })
}

/// Runs the rule of a domain: where the settings hold the domain to a style,
/// plans the moves of the domain and gives the verdict on them.
fn apply_rule<F, V>(category: Category, config: Config<F, V>, autofix: bool) -> (out: Valid<
    Outcome<F, V>,
>)
    ensures
        outcome_of(out@) == rule(category, config@, autofix),
        config@.well_formed() ==> (out@ matches Validation::Success(outcome)
            ==> outcome.config@.well_formed()),
{
    proof {
        if config@.well_formed() && rule(category, config@, autofix) is Success {
            lemma_rule_keeps_well_formed(category, config@, autofix);
        }
    }
    let style = match config.server.lint {
        Some(lint) => lint.effective_style(category),
        None => None,
    };
    match style {
        None => keep(config),
        Some(style) => {
            let plans = plan_all(category, &config, style);
            enforce(category, config, &plans, autofix)
        },
    }
}

/// Holds the names of the fields of every type to their style.
pub fn field_lint<F, V>(config: Config<F, V>, autofix: bool) -> (out: Valid<Outcome<F, V>>)
    ensures
        outcome_of(out@) == rule(Category::Field, config@, autofix),
        config@.well_formed() ==> (out@ matches Validation::Success(outcome)
            ==> outcome.config@.well_formed()),
{
    apply_rule(Category::Field, config, autofix)
}

/// Holds the names of the types to their style.
pub fn type_lint<F, V>(config: Config<F, V>, autofix: bool) -> (out: Valid<Outcome<F, V>>)
    ensures
        outcome_of(out@) == rule(Category::Type, config@, autofix),
        config@.well_formed() ==> (out@ matches Validation::Success(outcome)
            ==> outcome.config@.well_formed()),
{
    apply_rule(Category::Type, config, autofix)
}

/// Holds the names of the enums to their style. Enum names are held to the
/// rule of the other domains: in a report, an enum that is not in its style
/// fails the rule.
pub fn enum_lint<F, V>(config: Config<F, V>, autofix: bool) -> (out: Valid<Outcome<F, V>>)
    ensures
        outcome_of(out@) == rule(Category::Enum, config@, autofix),
        config@.well_formed() ==> (out@ matches Validation::Success(outcome)
            ==> outcome.config@.well_formed()),
{
    apply_rule(Category::Enum, config, autofix)
}

/// Holds the names of the variants of every enum to their style.
pub fn enum_value_lint<F, V>(config: Config<F, V>, autofix: bool) -> (out: Valid<Outcome<F, V>>)
    ensures
        outcome_of(out@) == rule(Category::EnumValue, config@, autofix),
        config@.well_formed() ==> (out@ matches Validation::Success(outcome)
            ==> outcome.config@.well_formed()),
{
    apply_rule(Category::EnumValue, config, autofix)
}

/// Runs the rule of `category` on what the rules before it left.
fn run_rule<F, V>(done: Outcome<F, V>, category: Category, autofix: bool) -> (out: Result<
    Outcome<F, V>,
    String,
>)
    ensures
        match out {
            Ok(outcome) => then_rule(Ok(done@), category, autofix) == Ok::<
                OutcomeView<F, V>,
                Seq<char>,
            >(outcome@),
            Err(message) => then_rule(Ok(done@), category, autofix) == Err::<
                OutcomeView<F, V>,
                Seq<char>,
            >(message@),
        },
{
    let Outcome { config, renames } = done;
    let mut renames = renames;
    let ghost earlier = rename_views(renames@);
    let next = match category {
        Category::Field => field_lint(config, autofix),
        Category::Type => type_lint(config, autofix),
        Category::Enum => enum_lint(config, autofix),
        Category::EnumValue => enum_value_lint(config, autofix),
    };
    match next.to_result() {
        Ok(outcome) => {
            let Outcome { config, renames: later } = outcome;
            let mut later = later;
            let ghost later_views = rename_views(later@);
            renames.append(&mut later);
            proof {
                assert(rename_views(renames@) =~= earlier + later_views);
            }
            Ok(Outcome { config, renames })
        },
        Err(message) => Err(message),
    }
}

/// The error for the message of a rule that failed.
fn refuse(message: String, autofix: bool) -> (out: LintError)
    ensures
        out@ == refusal(message@, autofix),
{
    if autofix {
        LintError::RenameCollision(message)
    } else {
        LintError::LintViolation(message)
    }
}

/// Lints a configuration after its own settings.
///
/// Without settings the configuration comes back as it is. Else the rules
/// for fields, types, enums and enum variants run in that order, each on
/// what the one before it left. The first rule that fails ends the lint, and
/// its diagnostics are the message of the error. A configuration in which no
/// namespace holds a name twice comes back as such a configuration.
pub fn lint<F, V>(config: Config<F, V>) -> (out: Result<Outcome<F, V>, LintError>)
    ensures
        result_of(out) == linted(config@),
        config.server.lint is None ==> out is Ok && out->Ok_0.config == config
            && out->Ok_0.renames@.len() == 0,
        config@.well_formed() ==> (out matches Ok(outcome) ==> outcome.config@.well_formed()),
{
    proof {
        if config@.well_formed() && linted(config@) is Ok {
            lemma_lint_keeps_well_formed(config@);
        }
    }
    let renames: Vec<Rename> = Vec::new();
    assert(rename_views(renames@) =~= Seq::empty());
    let start = Outcome { config, renames };
    match start.config.server.lint {
        None => Ok(start),
        Some(settings) => {
            let autofix = settings.is_autofix();
            let fields = match run_rule(start, Category::Field, autofix) {
                Ok(outcome) => outcome,
                Err(message) => { return Err(refuse(message, autofix)); },
            };
            let types = match run_rule(fields, Category::Type, autofix) {
                Ok(outcome) => outcome,
                Err(message) => { return Err(refuse(message, autofix)); },
            };
            let enums = match run_rule(types, Category::Enum, autofix) {
                Ok(outcome) => outcome,
                Err(message) => { return Err(refuse(message, autofix)); },
            };
            match run_rule(enums, Category::EnumValue, autofix) {
                Ok(outcome) => Ok(outcome),
                Err(message) => Err(refuse(message, autofix)),
            }
        },
    }
}

} // verus!
