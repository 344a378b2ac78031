//! The identifiers of one namespace, held against their conversions.
//!
//! A namespace is examined as a list of moves, one for each of its
//! identifiers in their order: from the identifier as it stands to the
//! identifier as it should be. What is reported of a namespace, and what an
//! automatic fix would do to it, are functions of that list alone.

use crate::case::{convert, converted, TextCase};
use crate::text::texts;
use vstd::prelude::*;

verus! {

/// The four naming domains of a configuration.
#[derive(Clone, Copy, Debug, PartialEq, Eq, Structural)]
pub enum Category {
    /// The fields of a type.
    Field,
    /// The types.
    Type,
    /// The enums.
    Enum,
    /// The variants of an enum.
    EnumValue,
}

impl Category {
    /// How a diagnostic calls an identifier of this domain.
    pub open spec fn noun(self) -> Seq<char> {
        match self {
            Category::Field => "field"@,
            Category::Type => "type"@,
            Category::Enum => "enum"@,
            Category::EnumValue => "enum variant"@,
        }
    }

    /// How the record of a rename calls an identifier of this domain.
    pub open spec fn audit_noun(self) -> Seq<char> {
        match self {
            Category::Field => "field"@,
            Category::Type => "type"@,
            Category::Enum => "enum"@,
            Category::EnumValue => "variant"@,
        }
    }

    /// The style of this domain where the settings ask for the defaults and
    /// name no style for it.
    pub open spec fn default_style(self) -> TextCase {
        match self {
            Category::Field => TextCase::CamelCase,
            Category::Type => TextCase::PascalCase,
            Category::Enum => TextCase::PascalCase,
            Category::EnumValue => TextCase::AllCaps,
        }
    }

    /// How a diagnostic calls an identifier of this domain.
    pub fn label(self) -> (out: &'static str)
        ensures
            out@ == self.noun(),
    {
        match self {
            Category::Field => "field",
            Category::Type => "type",
            Category::Enum => "enum",
            Category::EnumValue => "enum variant",
        }
    }

    /// How the record of a rename calls an identifier of this domain.
    pub fn audit_label(self) -> (out: &'static str)
        ensures
            out@ == self.audit_noun(),
    {
        match self {
            Category::Field => "field",
            Category::Type => "type",
            Category::Enum => "enum",
            Category::EnumValue => "variant",
        }
    }

    /// The built-in style of this domain.
    pub fn default_case(self) -> (out: TextCase)
        ensures
            out == self.default_style(),
    {
        match self {
            Category::Field => TextCase::CamelCase,
            Category::Type => TextCase::PascalCase,
            Category::Enum => TextCase::PascalCase,
            Category::EnumValue => TextCase::AllCaps,
        }
    }
}

/// The diagnostic for an identifier that is not in its style.
pub open spec fn violation_text(category: Category, from: Seq<char>, to: Seq<char>) -> Seq<char> {
    "lint failed for "@ + category.noun() + " "@ + from + ", expected "@ + to
}

/// The diagnostic for a rename whose target is taken.
pub open spec fn collision_text(category: Category, from: Seq<char>, to: Seq<char>) -> Seq<char> {
    "rename collision for "@ + category.noun() + " "@ + from + ", "@ + to + " already exists"@
}

/// The line that records a rename.
pub open spec fn rename_text(category: Category, from: Seq<char>, to: Seq<char>) -> Seq<char> {
    category.audit_noun() + " "@ + from + " is renamed to "@ + to
}

/// An identifier and what it should be.
pub struct MoveView {
    pub from: Seq<char>,
    pub to: Seq<char>,
}

/// An identifier and what it should be; the two are equal where the
/// identifier is in its style.
#[derive(Clone, Debug, PartialEq, Eq)]
pub struct Move {
    pub from: String,
    pub to: String,
}

impl View for Move {
    type V = MoveView;

    open spec fn view(&self) -> MoveView {
        MoveView { from: self.from@, to: self.to@ }
    }
}

/// The record of one rename.
pub struct RenameView {
    pub category: Category,
    pub from: Seq<char>,
    pub to: Seq<char>,
}

/// The record of one rename: the domain, the old name and the new name.
#[derive(Clone, Debug, PartialEq, Eq)]
pub struct Rename {
    pub category: Category,
    pub from: String,
    pub to: String,
}

impl View for Rename {
    type V = RenameView;

    open spec fn view(&self) -> RenameView {
        RenameView { category: self.category, from: self.from@, to: self.to@ }
    }
}

/// The moves that a sequence of `Move` holds.
pub open spec fn move_views(moves: Seq<Move>) -> Seq<MoveView> {
    moves.map_values(|m: Move| m@)
}

/// The plans that a sequence of lists of `Move` holds.
pub open spec fn plan_views(plans: Seq<Vec<Move>>) -> Seq<Seq<MoveView>> {
    plans.map_values(|moves: Vec<Move>| move_views(moves@))
}

/// The records that a sequence of `Rename` holds.
pub open spec fn rename_views(renames: Seq<Rename>) -> Seq<RenameView> {
    renames.map_values(|r: Rename| r@)
}

/// The moves of a namespace under `style`: each identifier, in order, with
/// its conversion.
pub open spec fn plan(names: Seq<Seq<char>>, style: TextCase) -> Seq<MoveView> {
    names.map_values(|name: Seq<char>| MoveView { from: name, to: converted(name, style) })
}

impl MoveView {
    /// Whether the identifier is not what it should be.
    pub open spec fn changes(self) -> bool {
        self.from != self.to
    }
}

/// Whether the target of move `i` is also the target of another move of the
/// namespace. An identifier that stays is a move onto itself, so this holds
/// too where the target is the name of an entry that stays.
pub open spec fn taken(moves: Seq<MoveView>, i: int) -> bool {
    exists|j: int| 0 <= j < moves.len() && j != i && #[trigger] moves[j].to == moves[i].to
}

/// Whether move `i` is a rename onto a name that another entry will bear.
pub open spec fn clashes(moves: Seq<MoveView>, i: int) -> bool {
    moves[i].changes() && taken(moves, i)
}

/// One diagnostic for each identifier that is not in its style, in the order
/// of the namespace.
pub open spec fn violations(category: Category, moves: Seq<MoveView>) -> Seq<Seq<char>>
    decreases moves.len(),
{
    if moves.len() == 0 {
        Seq::empty()
    } else {
        let before = violations(category, moves.drop_last());
        let m = moves.last();
        if m.changes() {
            before.push(violation_text(category, m.from, m.to))
        } else {
            before
        }
    }
}

/// One record for each identifier that is not in its style, in the order of
/// the namespace.
pub open spec fn renames(category: Category, moves: Seq<MoveView>) -> Seq<RenameView>
    decreases moves.len(),
{
    if moves.len() == 0 {
        Seq::empty()
    } else {
        let before = renames(category, moves.drop_last());
        let m = moves.last();
        if m.changes() {
            before.push(RenameView { category, from: m.from, to: m.to })
        } else {
            before
        }
    }
}

/// One diagnostic for each of the first `n` moves that clashes with another
/// move of the whole namespace, in the order of the namespace.
pub open spec fn collisions_among(category: Category, moves: Seq<MoveView>, n: nat) -> Seq<
    Seq<char>,
>
    decreases n,
{
    if n == 0 {
        Seq::empty()
    } else {
        let before = collisions_among(category, moves, (n - 1) as nat);
        let m = moves[n - 1];
        if clashes(moves, n - 1) {
            before.push(collision_text(category, m.from, m.to))
        } else {
            before
        }
    }
}

/// One diagnostic for each rename whose target another entry of the
/// namespace will bear, in the order of the namespace.
pub open spec fn collisions(category: Category, moves: Seq<MoveView>) -> Seq<Seq<char>> {
    collisions_among(category, moves, moves.len())
}

/// The diagnostic for an identifier that is not in its style.
pub fn violation_message(category: Category, from: &str, to: &str) -> (out: String)
    ensures
        out@ == violation_text(category, from@, to@),
{
    let mut out = String::from_str("lint failed for ");
    out.append(category.label());
    out.append(" ");
    out.append(from);
    out.append(", expected ");
    out.append(to);
    out
}

/// The diagnostic for a rename whose target is taken.
pub fn collision_message(category: Category, from: &str, to: &str) -> (out: String)
    ensures
        out@ == collision_text(category, from@, to@),
{
    let mut out = String::from_str("rename collision for ");
    out.append(category.label());
    out.append(" ");
    out.append(from);
    out.append(", ");
    out.append(to);
    out.append(" already exists");
    out
}

impl Rename {
    /// The line that records this rename.
    pub fn message(&self) -> (out: String)
        ensures
            out@ == rename_text(self.category, self.from@, self.to@),
    {
        let mut out = String::from_str(self.category.audit_label());
        out.append(" ");
        out.append(self.from.as_str());
        out.append(" is renamed to ");
        out.append(self.to.as_str());
        out
    }
}

/// Plans the moves of a namespace: converts each identifier into `style`.
pub fn plan_moves(names: &Vec<String>, style: TextCase) -> (moves: Vec<Move>)
    ensures
        move_views(moves@) == plan(texts(names@), style),
{
    let mut moves: Vec<Move> = Vec::new();
    let mut i: usize = 0;
    while i < names.len()
        invariant
            i <= names.len(),
            move_views(moves@) == plan(texts(names@).take(i as int), style),
        decreases names.len() - i,
    {
        let to = convert(names[i].as_str(), style);
        let m = Move { from: names[i].clone(), to };
        let ghost before = move_views(moves@);
        moves.push(m);
        proof {
            let all = texts(names@);
            assert(move_views(moves@) =~= before.push(m@));
            assert(all.take(i + 1) =~= all.take(i as int).push(names@[i as int]@));
            assert(plan(all.take(i + 1), style) =~= plan(all.take(i as int), style).push(m@));
        }
        i += 1;
    }
    proof {
        assert(texts(names@).take(names.len() as int) == texts(names@));
    }
    moves
}

/// The diagnostics of a namespace in report mode.
pub fn violations_of(category: Category, moves: &Vec<Move>) -> (out: Vec<String>)
    ensures
        texts(out@) == violations(category, move_views(moves@)),
{
    let mut out: Vec<String> = Vec::new();
    let mut i: usize = 0;
    while i < moves.len()
        invariant
            i <= moves.len(),
            texts(out@) == violations(category, move_views(moves@).take(i as int)),
        decreases moves.len() - i,
    {
        proof {
            let all = move_views(moves@);
            assert(all.take(i + 1).drop_last() == all.take(i as int));
            assert(all.take(i + 1).last() == moves@[i as int]@);
        }
        if moves[i].from != moves[i].to {
            let message = violation_message(category, moves[i].from.as_str(), moves[i].to.as_str());
            let ghost before = texts(out@);
            out.push(message);
            assert(texts(out@) =~= before.push(message@));
        }
        i += 1;
    }
    proof {
        assert(move_views(moves@).take(moves.len() as int) == move_views(moves@));
    }
    out
}

/// The records of the renames that fix a namespace.
pub fn renames_of(category: Category, moves: &Vec<Move>) -> (out: Vec<Rename>)
    ensures
        rename_views(out@) == renames(category, move_views(moves@)),
{
    let mut out: Vec<Rename> = Vec::new();
    let mut i: usize = 0;
    while i < moves.len()
        invariant
            i <= moves.len(),
            rename_views(out@) == renames(category, move_views(moves@).take(i as int)),
        decreases moves.len() - i,
    {
        proof {
            let all = move_views(moves@);
            assert(all.take(i + 1).drop_last() == all.take(i as int));
            assert(all.take(i + 1).last() == moves@[i as int]@);
        }
        if moves[i].from != moves[i].to {
            let record = Rename { category, from: moves[i].from.clone(), to: moves[i].to.clone() };
            let ghost before = rename_views(out@);
            out.push(record);
            assert(rename_views(out@) =~= before.push(record@));
        }
        i += 1;
    }
    proof {
        assert(move_views(moves@).take(moves.len() as int) == move_views(moves@));
    }
    out
}

/// Whether the target of move `i` is the target of another move.
fn is_taken(moves: &Vec<Move>, i: usize) -> (yes: bool)
    requires
        i < moves.len(),
    ensures
        yes == taken(move_views(moves@), i as int),
{
    let mut j: usize = 0;
    while j < moves.len()
        invariant
            i < moves.len(),
            j <= moves.len(),
            forall|k: int|
                0 <= k < j && k != i ==> (#[trigger] move_views(moves@)[k]).to != move_views(
                    moves@,
                )[i as int].to,
        decreases moves.len() - j,
    {
        if j != i && moves[j].to == moves[i].to {
            assert(move_views(moves@)[j as int].to == move_views(moves@)[i as int].to);
            return true;
        }
        j += 1;
    }
    false
}

/// The diagnostics of a namespace under an automatic fix.
pub fn collisions_of(category: Category, moves: &Vec<Move>) -> (out: Vec<String>)
    ensures
        texts(out@) == collisions(category, move_views(moves@)),
{
    let mut out: Vec<String> = Vec::new();
    let mut i: usize = 0;
    while i < moves.len()
        invariant
            i <= moves.len(),
            texts(out@) == collisions_among(category, move_views(moves@), i as nat),
        decreases moves.len() - i,
    {
        if moves[i].from != moves[i].to && is_taken(moves, i) {
            let message = collision_message(category, moves[i].from.as_str(), moves[i].to.as_str());
            let ghost before = texts(out@);
            out.push(message);
            assert(texts(out@) =~= before.push(message@));
        }
        i += 1;
    }
    out
}

} // verus!
