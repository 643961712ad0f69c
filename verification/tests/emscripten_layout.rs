use wasm_decode::emscripten::{
    align_memory, dynamic_base, dynamictop_ptr, emscripten_set_up_memory, stack_max, stacktop,
    EmscriptenModuleEnvironment, DYNAMICTOP_PTR_DIFF, STATIC_BUMP, TOTAL_STACK,
};

#[test]
fn align_memory_rounds_up_to_sixteen() {
    assert_eq!(align_memory(0), 0);
    assert_eq!(align_memory(1), 16);
    assert_eq!(align_memory(15), 16);
    assert_eq!(align_memory(16), 16);
    assert_eq!(align_memory(17), 32);
    assert_eq!(align_memory(216_628), 216_640);
    assert_eq!(align_memory(u32::MAX - 15), u32::MAX - 15);
}

#[test]
fn layout_of_the_standard_static_size() {
    assert_eq!(STATIC_BUMP, 215_536);
    assert_eq!(DYNAMICTOP_PTR_DIFF, 1088);
    assert_eq!(TOTAL_STACK, 5_242_880);
    assert_eq!(dynamictop_ptr(STATIC_BUMP), 216_624);
    assert_eq!(stacktop(STATIC_BUMP), 216_640);
    assert_eq!(stack_max(STATIC_BUMP), 5_459_520);
    assert_eq!(dynamic_base(STATIC_BUMP), 5_459_520);
}

#[test]
fn layout_of_other_static_sizes() {
    assert_eq!(dynamictop_ptr(0), 1088);
    assert_eq!(stacktop(0), 1104);
    assert_eq!(stack_max(0), 5_243_984);
    assert_eq!(dynamic_base(0), 5_243_984);
    assert_eq!(stacktop(5), 1104);
    assert_eq!(stacktop(13), 1120);
    assert_eq!(dynamic_base(13), 5_244_000);
}

#[test]
fn set_up_memory_writes_the_dynamic_base() {
    let mut memory = vec![0xeeu8; 216_640];
    emscripten_set_up_memory(&mut memory);
    // 5_459_520 is 0x00534e40.
    assert_eq!(&memory[216_624..216_628], &[0x40, 0x4e, 0x53, 0x00]);
    assert!(memory[..216_624].iter().all(|byte| *byte == 0xee));
    assert!(memory[216_628..].iter().all(|byte| *byte == 0xee));
}

#[test]
fn set_up_memory_fits_exactly() {
    let mut memory = vec![0u8; 216_628];
    emscripten_set_up_memory(&mut memory);
    assert_eq!(&memory[216_624..], &[0x40, 0x4e, 0x53, 0x00]);
}

#[test]
fn set_up_memory_leaves_a_small_memory_alone() {
    let mut memory = vec![0x11u8; 216_627];
    emscripten_set_up_memory(&mut memory);
    assert!(memory.iter().all(|byte| *byte == 0x11));
    let mut none: Vec<u8> = Vec::new();
    emscripten_set_up_memory(&mut none);
    assert!(none.is_empty());
}

#[test]
fn module_environment_can_be_made() {
    let _environment = EmscriptenModuleEnvironment::new();
}
