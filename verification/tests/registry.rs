use wasm_core::messages::{SyncBlockState, SyncBlockStates, SyncProperty};
use wasm_core::registry::block::{build_registry, infer_type, BlockStateRegistry, PropertyType};

fn state(id: i32, name: &str, props: &[(&str, &str)], is_default: bool) -> SyncBlockState {
    SyncBlockState {
        id,
        name: name.to_string(),
        properties: props
            .iter()
            .map(|(k, v)| SyncProperty { name: k.to_string(), value: v.to_string() })
            .collect(),
        is_default,
    }
}

fn overrides(list: &[(&str, &str)]) -> Vec<(String, String)> {
    list.iter().map(|(k, v)| (k.to_string(), v.to_string())).collect()
}

fn lever_id(face: usize, facing: usize, powered: bool) -> i32 {
    (face * 4 + facing * 2 + if powered { 0 } else { 1 }) as i32
}

fn sample() -> BlockStateRegistry {
    let mut states = Vec::new();
    let faces = ["floor", "wall", "ceiling"];
    let facings = ["north", "south"];
    for (fi, face) in faces.iter().enumerate() {
        for (gi, facing) in facings.iter().enumerate() {
            for powered in [true, false] {
                let id = lever_id(fi, gi, powered);
                let default = *face == "wall" && *facing == "north" && !powered;
                states.push(state(
                    id,
                    "minecraft:lever",
                    &[("face", face), ("facing", facing), ("powered", if powered { "true" } else { "false" })],
                    default,
                ));
            }
        }
    }
    states.push(state(100, "minecraft:stone", &[], true));
    for age in 0..8 {
        let text = age.to_string();
        states.push(state(200 + age, "minecraft:wheat", &[("age", &text)], age == 0));
    }
    states.push(state(300, "test:flags", &[("flag", "true")], true));
    states.push(state(301, "test:flags", &[("flag", "yes")], false));
    states.push(state(400, "test:mixed", &[("level", "1")], true));
    states.push(state(401, "test:mixed", &[("level", "x")], false));
    states.push(state(500, "test:no_default", &[], false));
    build_registry(&SyncBlockStates { states })
}

#[test]
fn block_without_properties() {
    let r = sample();
    assert_eq!(r.get_state_id("minecraft:stone", Vec::new()), Some(100));
}

#[test]
fn default_state_without_overrides() {
    let r = sample();
    assert_eq!(r.get_state_id("minecraft:lever", Vec::new()), Some(lever_id(1, 0, false)));
    assert_eq!(r.get_state_id("minecraft:wheat", Vec::new()), Some(200));
}

#[test]
fn overrides_select_the_state() {
    let r = sample();
    assert_eq!(
        r.get_state_id("minecraft:lever", overrides(&[("facing", "south")])),
        Some(lever_id(1, 1, false))
    );
    assert_eq!(
        r.get_state_id("minecraft:lever", overrides(&[("face", "floor"), ("powered", "true")])),
        Some(lever_id(0, 0, true))
    );
    assert_eq!(r.get_state_id("minecraft:wheat", overrides(&[("age", "7")])), Some(207));
    assert_eq!(r.get_state_id("minecraft:wheat", overrides(&[("age", "+3")])), Some(203));
}

#[test]
fn later_override_wins() {
    let r = sample();
    assert_eq!(
        r.get_state_id("minecraft:lever", overrides(&[("facing", "south"), ("facing", "north")])),
        Some(lever_id(1, 0, false))
    );
}

#[test]
fn invalid_overrides_are_skipped() {
    let r = sample();
    let default = Some(lever_id(1, 0, false));
    assert_eq!(r.get_state_id("minecraft:lever", overrides(&[("facing", "up")])), default);
    assert_eq!(r.get_state_id("minecraft:lever", overrides(&[("color", "red")])), default);
    assert_eq!(r.get_state_id("minecraft:wheat", overrides(&[("age", "8")])), Some(200));
    assert_eq!(r.get_state_id("minecraft:wheat", overrides(&[("age", "-1")])), Some(200));
    assert_eq!(r.get_state_id("minecraft:wheat", overrides(&[("age", "ripe")])), Some(200));
}

#[test]
fn any_text_is_a_boolean_override() {
    let r = sample();
    assert_eq!(r.get_state_id("minecraft:lever", overrides(&[("powered", "true")])), Some(lever_id(1, 0, true)));
    assert_eq!(r.get_state_id("minecraft:lever", overrides(&[("powered", "yes")])), Some(lever_id(1, 0, false)));
}

#[test]
fn two_values_with_true_make_a_boolean() {
    let r = sample();
    // "true" and "yes" make a boolean property: "yes" reads as false, like
    // the default, and the later state with the same properties wins.
    assert_eq!(r.get_state_id("test:flags", Vec::new()), Some(300));
    assert_eq!(r.get_state_id("test:flags", overrides(&[("flag", "no")])), Some(301));
}

#[test]
fn a_non_number_makes_an_enum() {
    let r = sample();
    assert_eq!(r.get_state_id("test:mixed", Vec::new()), Some(400));
    assert_eq!(r.get_state_id("test:mixed", overrides(&[("level", "x")])), Some(401));
    assert_eq!(r.get_state_id("test:mixed", overrides(&[("level", "01")])), Some(400));
}

#[test]
fn unknown_block() {
    let r = sample();
    assert_eq!(r.get_state_id("minecraft:dirt", Vec::new()), None);
    assert_eq!(r.get_block_state("minecraft:dirt", Vec::new()), -1);
    assert_eq!(r.get_block_state("minecraft:stone", Vec::new()), 100);
}

#[test]
fn block_without_default_state() {
    let r = sample();
    assert_eq!(r.get_state_id("test:no_default", Vec::new()), Some(500));
}

#[test]
fn empty_registry() {
    let r = BlockStateRegistry::new();
    assert_eq!(r.get_state_id("minecraft:stone", Vec::new()), None);
    let built = build_registry(&SyncBlockStates { states: Vec::new() });
    assert_eq!(built.get_block_state("minecraft:stone", Vec::new()), -1);
}

#[test]
fn no_values_infer_an_empty_integer_range() {
    assert!(matches!(infer_type(&Vec::new()), PropertyType::Integer(0, 0)));
}

#[test]
fn inferred_types() {
    let v = |l: &[&str]| l.iter().map(|s| s.to_string()).collect::<Vec<String>>();
    assert!(matches!(infer_type(&v(&["false", "true", "true"])), PropertyType::Boolean));
    assert!(matches!(infer_type(&v(&["3", "-1", "7"])), PropertyType::Integer(-1, 7)));
    match infer_type(&v(&["south", "north", "south"])) {
        PropertyType::Enum(names) => assert_eq!(names, v(&["north", "south"])),
        other => panic!("unexpected {:?}", other),
    }
}
