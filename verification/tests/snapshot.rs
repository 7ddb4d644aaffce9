use ai_common::input::{attack, move_to, recall, skill_at, skill_dir, ult_on, Input, InputTarget};
use ai_common::snapshot::{ctx_snapshot, PlayerAiContext};

fn ctx(hp: Option<usize>) -> PlayerAiContext {
    PlayerAiContext {
        tick: 1200,
        player_id: 3,
        team: 1,
        position: "Mid".to_string(),
        champion_name: "Archer".to_string(),
        hp_ratio_percent: hp,
    }
}

#[test]
fn snapshot_of_an_attack() {
    let base = format!("{:?}", Some(attack(7)));
    assert_eq!(
        ctx_snapshot(&ctx(Some(42)), &base),
        "tick=1200 player=3 team=1 pos=Mid champ=Archer hp=Some(42)% base=Some(Attack { target: Target { target_id: 7 } })"
    );
}

#[test]
fn snapshot_without_hp_or_input() {
    let base = format!("{:?}", None::<Input>);
    assert_eq!(
        ctx_snapshot(&ctx(None), &base),
        "tick=1200 player=3 team=1 pos=Mid champ=Archer hp=None% base=None"
    );
}

#[test]
fn snapshot_keeps_the_input_text_as_given() {
    assert_eq!(
        ctx_snapshot(&ctx(Some(0)), "Some(Skill { target: None })"),
        "tick=1200 player=3 team=1 pos=Mid champ=Archer hp=Some(0)% base=Some(Skill { target: None })"
    );
    assert_eq!(
        ctx_snapshot(&ctx(Some(100)), ""),
        "tick=1200 player=3 team=1 pos=Mid champ=Archer hp=Some(100)% base="
    );
}

#[test]
fn snapshot_matches_the_original_format() {
    let inputs = [
        move_to(1, 2),
        recall(),
        attack(3),
        skill_at(4, 5),
        skill_dir(-6, i64::MIN),
        Input::Skill2 { target: InputTarget::Pos { x: 8, y: 9 } },
        ult_on(10),
    ];
    for hp in [None, Some(0usize), Some(50), Some(usize::MAX)] {
        for i in inputs {
            let base = Some(i);
            let c = ctx(hp);
            let line = ctx_snapshot(&c, &format!("{:?}", base));
            let expected = format!(
                "tick={} player={} team={} pos={} champ={} hp={:?}% base={:?}",
                c.tick, c.player_id, c.team, c.position, c.champion_name, c.hp_ratio_percent, base
            );
            assert_eq!(line, expected);
            assert!(!line.contains('\n'));
        }
    }
}

#[test]
fn snapshot_of_extreme_numbers() {
    let c = PlayerAiContext {
        tick: usize::MAX,
        player_id: 0,
        team: 10,
        position: String::new(),
        champion_name: "Ümlaut".to_string(),
        hp_ratio_percent: Some(usize::MAX),
    };
    assert_eq!(
        ctx_snapshot(&c, "None"),
        format!(
            "tick={} player=0 team=10 pos= champ=Ümlaut hp=Some({})% base=None",
            usize::MAX,
            usize::MAX
        )
    );
}
