use key_path::key;
use key_path::layout::Field;
use key_path::layout::TypeLayout;
use key_path::Instance;
use key_path::KeyEnter;
use key_path::KeyPath;
use key_path::KeyPathError;

fn scalar(type_id: u64, size: usize) -> TypeLayout {
    TypeLayout { type_id, size, fields: Vec::new() }
}

/// The layout of a pair of `u128` fields, laid out back to back.
fn pair_of_u128s() -> TypeLayout {
    TypeLayout {
        type_id: 11,
        size: 32,
        fields: vec![
            Field { offset: 0, layout: scalar(12, 16) },
            Field { offset: 16, layout: scalar(12, 16) },
        ],
    }
}

/// The layout of a `u64` field followed by a `u32` field, with tail padding.
fn u64_then_u32() -> TypeLayout {
    TypeLayout {
        type_id: 21,
        size: 16,
        fields: vec![
            Field { offset: 0, layout: scalar(22, 8) },
            Field { offset: 8, layout: scalar(23, 4) },
        ],
    }
}

#[test]
fn test_new_generic() {
    // A wrapper of a single field, instantiated at a 4-byte integer.
    let wrapper = TypeLayout {
        type_id: 5,
        size: 4,
        fields: vec![Field { offset: 0, layout: scalar(6, 4) }],
    };
    let instance = Instance { type_id: 5, data: 44i32.to_le_bytes().to_vec() };

    let path = key(&wrapper, &vec![0]).unwrap();
    let field = instance.enter(&path).unwrap();
    assert_eq!(i32::from_le_bytes(field.try_into().unwrap()), 44);
}

#[test]
fn test_enter() {
    let layout = TypeLayout {
        type_id: 7,
        size: 8,
        fields: vec![Field { offset: 0, layout: scalar(8, 8) }],
    };
    let instance = Instance { type_id: 7, data: 32u64.to_le_bytes().to_vec() };

    let path = key(&layout, &vec![0]).unwrap();
    let field = instance.enter(&path).unwrap();
    assert_eq!(u64::from_le_bytes(field.try_into().unwrap()), 32);
}

#[test]
fn test_enter_mut() {
    let layout = TypeLayout {
        type_id: 7,
        size: 4,
        fields: vec![Field { offset: 0, layout: scalar(6, 4) }],
    };
    let mut instance = Instance { type_id: 7, data: 3i32.to_le_bytes().to_vec() };

    let path = key(&layout, &vec![0]).unwrap();
    let current = i32::from_le_bytes(instance.enter(&path).unwrap().try_into().unwrap());
    instance
        .enter_mut(&path, &(current - 10).to_le_bytes().to_vec())
        .unwrap();

    assert_eq!(i32::from_le_bytes(instance.data[0..4].try_into().unwrap()), -7);
}

#[test]
fn test_append() {
    let inner = pair_of_u128s();
    let outer = TypeLayout {
        type_id: 10,
        size: 32,
        fields: vec![Field { offset: 0, layout: pair_of_u128s() }],
    };
    let mut instance = Instance {
        type_id: 10,
        data: [0u128.to_le_bytes(), 22u128.to_le_bytes()].concat(),
    };

    let inner_path = key(&inner, &vec![1]).unwrap();
    let outer_path = key(&outer, &vec![0]).unwrap();

    // Joining the paths the wrong way round is reported as a type mismatch.
    assert!(inner_path.append(outer_path).is_err());

    let path = outer_path.append(inner_path).unwrap();
    let current = u128::from_le_bytes(instance.enter(&path).unwrap().try_into().unwrap());
    instance
        .enter_mut(&path, &(current + 40).to_le_bytes().to_vec())
        .unwrap();

    assert_eq!(
        u128::from_le_bytes(instance.data[16..32].try_into().unwrap()),
        62
    );
}

#[test]
fn test_nested() {
    let layout = TypeLayout {
        type_id: 20,
        size: 16,
        fields: vec![Field { offset: 0, layout: u64_then_u32() }],
    };
    let mut instance = Instance {
        type_id: 20,
        data: [
            4u64.to_le_bytes().as_slice(),
            10u32.to_le_bytes().as_slice(),
            &[0u8; 4],
        ]
        .concat(),
    };

    let path = key(&layout, &vec![0, 1]).unwrap();
    let current = u32::from_le_bytes(instance.enter(&path).unwrap().try_into().unwrap());
    instance
        .enter_mut(&path, &(current + 200).to_le_bytes().to_vec())
        .unwrap();

    assert_eq!(
        u32::from_le_bytes(instance.data[8..12].try_into().unwrap()),
        210
    );
}

#[test]
fn mutation_scenario() {
    // A container of an integer field and a floating-point field: { 42, 3.14 }.
    let layout = TypeLayout {
        type_id: 30,
        size: 16,
        fields: vec![
            Field { offset: 0, layout: scalar(31, 4) },
            Field { offset: 8, layout: scalar(32, 8) },
        ],
    };
    let mut instance = Instance {
        type_id: 30,
        data: [
            42i32.to_le_bytes().as_slice(),
            &[0u8; 4],
            3.14f64.to_le_bytes().as_slice(),
        ]
        .concat(),
    };

    let field1 = key(&layout, &vec![0]).unwrap();
    let current = i32::from_le_bytes(instance.enter(&field1).unwrap().try_into().unwrap());
    instance
        .enter_mut(&field1, &(current - 20).to_le_bytes().to_vec())
        .unwrap();
    assert_eq!(
        i32::from_le_bytes(instance.enter(&field1).unwrap().try_into().unwrap()),
        22
    );

    let field2 = key(&layout, &vec![1]).unwrap();
    assert_eq!(
        f64::from_le_bytes(instance.enter(&field2).unwrap().try_into().unwrap()),
        3.14
    );
}

#[test]
fn composed_paths_scenario() {
    // Two independently constructed descriptors: one into the outer container,
    // one into the inner, joined end-to-end.
    let inner = u64_then_u32();
    let outer = TypeLayout {
        type_id: 40,
        size: 24,
        fields: vec![Field { offset: 8, layout: u64_then_u32() }],
    };
    let mut instance = Instance {
        type_id: 40,
        data: vec![0u8; 24],
    };

    let outer_path = key(&outer, &vec![0]).unwrap();
    let inner_path = key(&inner, &vec![1]).unwrap();
    let composed = outer_path.append(inner_path).unwrap();
    assert_eq!(composed.offset, outer_path.offset + inner_path.offset);

    let written = 99u32.to_le_bytes().to_vec();
    instance.enter_mut(&composed, &written).unwrap();

    // Step-by-step resolution reaches the same location: the outer path yields
    // the inner value's bytes, and the inner path picks the mutated field out
    // of them.
    let inner_instance = Instance {
        type_id: 21,
        data: instance.enter(&outer_path).unwrap(),
    };
    assert_eq!(inner_instance.enter(&inner_path).unwrap(), written);
}

#[test]
fn copied_path_resolves_identically() {
    let layout = TypeLayout {
        type_id: 7,
        size: 8,
        fields: vec![Field { offset: 4, layout: scalar(6, 4) }],
    };
    let instance = Instance {
        type_id: 7,
        data: [7i32.to_le_bytes(), 19i32.to_le_bytes()].concat(),
    };

    let path = key(&layout, &vec![0]).unwrap();
    let copy = path;
    let cloned = path.clone();

    assert_eq!(instance.enter(&path).unwrap(), instance.enter(&copy).unwrap());
    assert_eq!(instance.enter(&path).unwrap(), instance.enter(&cloned).unwrap());
}

#[test]
fn resolution_reports_type_mismatch() {
    let instance = Instance { type_id: 1, data: vec![0u8; 8] };
    let path = KeyPath::new(0, 4, 2, 3);
    assert_eq!(
        instance.enter(&path),
        Err(KeyPathError::TypeMismatch { expected: 1, found: 2 })
    );
}

#[test]
fn resolution_reports_out_of_bounds() {
    let mut instance = Instance { type_id: 1, data: vec![5u8; 8] };
    let path = KeyPath::new(6, 4, 1, 3);
    assert_eq!(instance.enter(&path), Err(KeyPathError::OutOfBounds));

    // A failed mutation leaves the instance as it was.
    assert_eq!(
        instance.enter_mut(&path, &vec![1u8; 4]),
        Err(KeyPathError::OutOfBounds)
    );
    assert_eq!(instance.data, vec![5u8; 8]);

    // The very last field that still fits resolves.
    let last = KeyPath::new(4, 4, 1, 3);
    assert!(instance.enter(&last).is_ok());
}
