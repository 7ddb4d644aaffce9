//! A one-line diagnostic snapshot of a player's AI context and of the input
//! the native AI chose for it.

use vstd::prelude::*;
use crate::text::{decimal, is_digit, lemma_decimal_digits, push_decimal};

verus! {

/// What a snapshot reads of a player's AI context.
pub struct PlayerAiContext {
    pub tick: usize,
    pub player_id: usize,
    pub team: usize,
    /// The displayed name of the player's position.
    pub position: String,
    pub champion_name: String,
    /// The player's hit points as a percentage of the maximum, when known.
    pub hp_ratio_percent: Option<usize>,
}

/// The text form of an optional number: `Some(..)` around its digits, or `None`.
pub open spec fn option_usize_text(o: Option<usize>) -> Seq<char> {
    match o {
        Some(n) => "Some("@ + decimal(n as nat) + ")"@,
        None => "None"@,
    }
}

/// The snapshot line of a context and the text of the native AI's chosen
/// input.
pub open spec fn snapshot_text(ctx: PlayerAiContext, base_input: Seq<char>) -> Seq<char> {
    "tick="@ + decimal(ctx.tick as nat) + " player="@ + decimal(ctx.player_id as nat) + " team="@
        + decimal(ctx.team as nat) + " pos="@ + ctx.position@ + " champ="@ + ctx.champion_name@
        + " hp="@ + option_usize_text(ctx.hp_ratio_percent) + "% base="@ + base_input
}

fn push_usize(s: &mut String, n: usize)
    ensures
        final(s)@ == old(s)@ + decimal(n as nat),
{
    push_decimal(s, n as u64);
}

/// One-line snapshot of a player's AI context and the native AI's chosen
/// input: `tick=.. player=.. team=.. pos=.. champ=.. hp=..% base=..`, with the
/// hit points in `Debug` form (`Some(42)` or `None`). `base_input` is the chosen
/// input, an `Option` of the game's input type, in the `Debug` form that the
/// game's type writes.
pub fn ctx_snapshot(ctx: &PlayerAiContext, base_input: &str) -> (r: String)
    ensures
        r@ == snapshot_text(*ctx, base_input@),
{
    let mut s = String::new();
    s.append("tick=");
    push_usize(&mut s, ctx.tick);
    s.append(" player=");
    push_usize(&mut s, ctx.player_id);
    s.append(" team=");
    push_usize(&mut s, ctx.team);
    s.append(" pos=");
    s.append(ctx.position.as_str());
    s.append(" champ=");
    s.append(ctx.champion_name.as_str());
    s.append(" hp=");
    match ctx.hp_ratio_percent {
        Some(n) => {
            s.append("Some(");
            push_usize(&mut s, n);
            s.append(")");
        },
        None => {
            s.append("None");
        },
    }
    s.append("% base=");
    s.append(base_input);
    assert(s@ =~= snapshot_text(*ctx, base_input@));
    s
}

proof fn lemma_no_newline_concat(x: Seq<char>, y: Seq<char>)
    requires
        !x.contains('\n'),
        !y.contains('\n'),
    ensures
        !(x + y).contains('\n'),
{
    if (x + y).contains('\n') {
        let j = choose|j: int| 0 <= j < (x + y).len() && (x + y)[j] == '\n';
        if j < x.len() {
            assert(x[j] == '\n');
        } else {
            assert(y[j - x.len()] == '\n');
        }
    }
}

proof fn lemma_decimal_no_newline(n: nat)
    ensures
        !decimal(n).contains('\n'),
{
    lemma_decimal_digits(n);
    if decimal(n).contains('\n') {
        let j = choose|j: int| 0 <= j < decimal(n).len() && decimal(n)[j] == '\n';
        assert(is_digit(decimal(n)[j]));
    }
}

/// A snapshot is one line: it holds no line break when the position, the
/// champion's name and the input's text hold none.
pub proof fn lemma_snapshot_one_line(ctx: PlayerAiContext, base_input: Seq<char>)
    requires
        !ctx.position@.contains('\n'),
        !ctx.champion_name@.contains('\n'),
        !base_input.contains('\n'),
    ensures
        !snapshot_text(ctx, base_input).contains('\n'),
{
    reveal_strlit("tick=");
    reveal_strlit(" player=");
    reveal_strlit(" team=");
    reveal_strlit(" pos=");
    reveal_strlit(" champ=");
    reveal_strlit(" hp=");
    reveal_strlit("% base=");
    reveal_strlit("Some(");
    reveal_strlit(")");
    reveal_strlit("None");
    lemma_decimal_no_newline(ctx.tick as nat);
    lemma_decimal_no_newline(ctx.player_id as nat);
    lemma_decimal_no_newline(ctx.team as nat);
    let hp = option_usize_text(ctx.hp_ratio_percent);
    match ctx.hp_ratio_percent {
        Some(n) => {
            lemma_decimal_no_newline(n as nat);
            lemma_no_newline_concat("Some("@, decimal(n as nat));
            lemma_no_newline_concat("Some("@ + decimal(n as nat), ")"@);
        },
        None => {},
    }
    let s0 = "tick="@ + decimal(ctx.tick as nat);
    lemma_no_newline_concat("tick="@, decimal(ctx.tick as nat));
    let s1 = s0 + " player="@;
    lemma_no_newline_concat(s0, " player="@);
    let s2 = s1 + decimal(ctx.player_id as nat);
    lemma_no_newline_concat(s1, decimal(ctx.player_id as nat));
    let s3 = s2 + " team="@;
    lemma_no_newline_concat(s2, " team="@);
    let s4 = s3 + decimal(ctx.team as nat);
    lemma_no_newline_concat(s3, decimal(ctx.team as nat));
    let s5 = s4 + " pos="@;
    lemma_no_newline_concat(s4, " pos="@);
    let s6 = s5 + ctx.position@;
    lemma_no_newline_concat(s5, ctx.position@);
    let s7 = s6 + " champ="@;
    lemma_no_newline_concat(s6, " champ="@);
    let s8 = s7 + ctx.champion_name@;
    lemma_no_newline_concat(s7, ctx.champion_name@);
    let s9 = s8 + " hp="@;
    lemma_no_newline_concat(s8, " hp="@);
    let s10 = s9 + hp;
    lemma_no_newline_concat(s9, hp);
    let s11 = s10 + "% base="@;
    lemma_no_newline_concat(s10, "% base="@);
    lemma_no_newline_concat(s11, base_input);
}

/// Every field of a snapshot stands whole at its place: the line has exactly
/// the length of its labels and fields together, starts with the tick, holds
/// the position between ` pos=` and ` champ=`, then the champion's name, and
/// ends with the input's text.
pub proof fn lemma_snapshot_layout(ctx: PlayerAiContext, base_input: Seq<char>)
    ensures
        ({
            let s = snapshot_text(ctx, base_input);
            let dt = decimal(ctx.tick as nat);
            let dp = decimal(ctx.player_id as nat);
            let dm = decimal(ctx.team as nat);
            let pos = ctx.position@;
            let ch = ctx.champion_name@;
            let hp = option_usize_text(ctx.hp_ratio_percent);
            let k: int = 5int + dt.len() + 8 + dp.len() + 6 + dm.len();
            &&& s.len() == k + 5 + pos.len() + 7 + ch.len() + 4 + hp.len() + 7 + base_input.len()
            &&& s.take(5int + dt.len()) == "tick="@ + dt
            &&& s.subrange(k, k + 5 + pos.len() + 7) == " pos="@ + pos + " champ="@
            &&& s.subrange(k + 12 + pos.len(), k + 12 + pos.len() + ch.len()) == ch
            &&& s.skip(s.len() - base_input.len()) == base_input
        }),
{
    reveal_strlit("tick=");
    reveal_strlit(" player=");
    reveal_strlit(" team=");
    reveal_strlit(" pos=");
    reveal_strlit(" champ=");
    reveal_strlit(" hp=");
    reveal_strlit("% base=");
    let s = snapshot_text(ctx, base_input);
    let dt = decimal(ctx.tick as nat);
    let dp = decimal(ctx.player_id as nat);
    let dm = decimal(ctx.team as nat);
    let pos = ctx.position@;
    let ch = ctx.champion_name@;
    let hp = option_usize_text(ctx.hp_ratio_percent);
    let head = "tick="@ + dt + " player="@ + dp + " team="@ + dm;
    let k: int = 5int + dt.len() + 8 + dp.len() + 6 + dm.len();
    assert(head.len() == k);
    let mid = " pos="@ + pos + " champ="@;
    let tail = ch + " hp="@ + hp + "% base="@ + base_input;
    assert(s =~= head + mid + tail);
    assert(s.take(5int + dt.len()) =~= "tick="@ + dt);
    assert(s.subrange(k, k + 5 + pos.len() + 7) =~= mid);
    assert(s.subrange(k + 12 + pos.len(), k + 12 + pos.len() + ch.len()) =~= ch);
    assert(s.skip(s.len() - base_input.len()) =~= base_input);
}

} // verus!
