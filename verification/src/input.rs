//! The input vocabulary of a player and intent-first constructors for it.

use vstd::prelude::*;

verus! {

/// Where an input is aimed.
#[derive(Clone, Copy, Debug, PartialEq, Eq, Structural)]
pub enum InputTarget {
    /// A specific entity.
    Target { target_id: usize },
    /// A skillshot direction.
    Dir { dir_x: i64, dir_y: i64 },
    /// A point on the map.
    Pos { x: u64, y: u64 },
    /// No target (the game names it `None`).
    NoTarget,
}

/// One action of a player for one tick.
#[derive(Clone, Copy, Debug, PartialEq, Eq, Structural)]
pub enum Input {
    Move { x: u64, y: u64 },
    /// Recall to base.
    Return,
    Attack { target: InputTarget },
    Skill { target: InputTarget },
    Skill2 { target: InputTarget },
    Ult { target: InputTarget },
}

/// Whether an optional input is an aggressive action: an attack, either skill
/// or the ultimate. Moving and recalling are passive, and so is no input.
pub open spec fn aggressive(base: Option<Input>) -> bool {
    match base {
        Some(Input::Attack { .. }) => true,
        Some(Input::Skill { .. }) => true,
        Some(Input::Skill2 { .. }) => true,
        Some(Input::Ult { .. }) => true,
        _ => false,
    }
}

/// Move to the point `(x, y)`.
pub fn move_to(x: u64, y: u64) -> (r: Input)
    ensures
        r == (Input::Move { x, y }),
{
    Input::Move { x, y }
}

/// Recall to base (the engine's "Return").
pub fn recall() -> (r: Input)
    ensures
        r == Input::Return,
{
    Input::Return
}

/// Attack the entity `target_id`.
pub fn attack(target_id: usize) -> (r: Input)
    ensures
        r == (Input::Attack { target: InputTarget::Target { target_id } }),
{
    Input::Attack { target: InputTarget::Target { target_id } }
}

/// Cast the skill at the point `(x, y)`.
pub fn skill_at(x: u64, y: u64) -> (r: Input)
    ensures
        r == (Input::Skill { target: InputTarget::Pos { x, y } }),
{
    Input::Skill { target: InputTarget::Pos { x, y } }
}

/// Cast the skill in the direction `(dir_x, dir_y)`.
pub fn skill_dir(dir_x: i64, dir_y: i64) -> (r: Input)
    ensures
        r == (Input::Skill { target: InputTarget::Dir { dir_x, dir_y } }),
{
    Input::Skill { target: InputTarget::Dir { dir_x, dir_y } }
}

/// Cast the skill on the entity `target_id`.
pub fn skill_on(target_id: usize) -> (r: Input)
    ensures
        r == (Input::Skill { target: InputTarget::Target { target_id } }),
{
    Input::Skill { target: InputTarget::Target { target_id } }
}

/// Cast the ultimate on the entity `target_id`.
pub fn ult_on(target_id: usize) -> (r: Input)
    ensures
        r == (Input::Ult { target: InputTarget::Target { target_id } }),
{
    Input::Ult { target: InputTarget::Target { target_id } }
}

/// True if the native AI's chosen input is an aggressive action (attack, any
/// skill, ult); moving and recalling are passive.
pub fn is_aggressive(base: &Option<Input>) -> (r: bool)
    ensures
        r == aggressive(*base),
{
    match base {
        Some(Input::Attack { .. }) => true,
        Some(Input::Skill { .. }) => true,
        Some(Input::Skill2 { .. }) => true,
        Some(Input::Ult { .. }) => true,
        _ => false,
    }
}

/// Every constructor that aims something at a target or a point yields an
/// aggressive input, and moving or recalling never does.
pub proof fn lemma_constructors_aggressiveness(x: u64, y: u64, dir_x: i64, dir_y: i64, target_id: usize)
    ensures
        !aggressive(Some(Input::Move { x, y })),
        !aggressive(Some(Input::Return)),
        !aggressive(None),
        aggressive(Some(Input::Attack { target: InputTarget::Target { target_id } })),
        aggressive(Some(Input::Skill { target: InputTarget::Pos { x, y } })),
        aggressive(Some(Input::Skill { target: InputTarget::Dir { dir_x, dir_y } })),
        aggressive(Some(Input::Skill { target: InputTarget::Target { target_id } })),
        aggressive(Some(Input::Ult { target: InputTarget::Target { target_id } })),
{
}

/// Whether an input is aggressive depends only on its kind, never on what it
/// aims at: every attack, skill, second skill and ultimate is aggressive,
/// whatever its target, and every move and recall is not.
pub proof fn lemma_aggressive_by_kind(t: InputTarget, x: u64, y: u64)
    ensures
        aggressive(Some(Input::Attack { target: t })),
        aggressive(Some(Input::Skill { target: t })),
        aggressive(Some(Input::Skill2 { target: t })),
        aggressive(Some(Input::Ult { target: t })),
        !aggressive(Some(Input::Move { x, y })),
        !aggressive(Some(Input::Return)),
        !aggressive(None),
{
}

/// An input is aggressive exactly when there is one and it is an attack, a
/// skill, a second skill or an ultimate.
pub proof fn lemma_aggressive_exactly(base: Option<Input>)
    ensures
        aggressive(base) <==> (base is Some && (base->0 is Attack || base->0 is Skill
            || base->0 is Skill2 || base->0 is Ult)),
{
}

} // verus!
