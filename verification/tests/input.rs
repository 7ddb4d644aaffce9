use ai_common::input::{
    attack, is_aggressive, move_to, recall, skill_at, skill_dir, skill_on, ult_on, Input,
    InputTarget,
};

#[test]
fn constructors_build_their_inputs() {
    assert_eq!(move_to(10, 20), Input::Move { x: 10, y: 20 });
    assert_eq!(recall(), Input::Return);
    assert_eq!(attack(7), Input::Attack { target: InputTarget::Target { target_id: 7 } });
    assert_eq!(skill_at(3, 4), Input::Skill { target: InputTarget::Pos { x: 3, y: 4 } });
    assert_eq!(skill_dir(-1, 2), Input::Skill { target: InputTarget::Dir { dir_x: -1, dir_y: 2 } });
    assert_eq!(skill_on(9), Input::Skill { target: InputTarget::Target { target_id: 9 } });
    assert_eq!(ult_on(5), Input::Ult { target: InputTarget::Target { target_id: 5 } });
}

#[test]
fn aggressive_inputs_are_attacks_skills_and_ults() {
    assert!(is_aggressive(&Some(attack(1))));
    assert!(is_aggressive(&Some(skill_at(1, 2))));
    assert!(is_aggressive(&Some(skill_dir(1, -2))));
    assert!(is_aggressive(&Some(skill_on(1))));
    assert!(is_aggressive(&Some(Input::Skill2 { target: InputTarget::NoTarget })));
    assert!(is_aggressive(&Some(ult_on(1))));
    assert!(is_aggressive(&Some(Input::Attack { target: InputTarget::NoTarget })));
}

#[test]
fn passive_inputs_are_not_aggressive() {
    assert!(!is_aggressive(&Some(move_to(0, 0))));
    assert!(!is_aggressive(&Some(recall())));
    assert!(!is_aggressive(&None));
}
