use simrard::transforms::{solidify_multipliers, validate_stack, Diagnostic, Operation, Transform, TransformStack};
use simrard::text::u64_to_decimal;

fn transform(target: &str, operation: Operation, path: &str, value: &str, epoch: u64, author: &str, alias: Option<&str>) -> Transform {
    Transform {
        target: target.to_string(),
        operation,
        path: path.to_string(),
        value: value.to_string(),
        contract: None,
        epoch,
        author: author.to_string(),
        alias: alias.map(|a| a.to_string()),
    }
}

#[test]
fn test_same_field_conflict() {
    let stack = TransformStack {
        base_epoch: 0,
        transforms: vec![
            transform("pawn", Operation::AddField, "new_trait", "", 100, "mod_a", None),
            transform("pawn", Operation::AddField, "new_trait", "", 105, "mod_b", None),
        ],
    };

    let result = validate_stack(&stack);
    assert!(result.is_err());
    let errs = result.unwrap_err();
    assert_eq!(errs.len(), 1);
    if let Diagnostic::SameFieldConflict { path, epoch_a, epoch_b } = &errs[0] {
        assert_eq!(path, "pawn.new_trait");
        assert_eq!(*epoch_a, 100);
        assert_eq!(*epoch_b, 105);
    } else {
        panic!("Wrong diagnostic type generated");
    }
}

#[test]
fn test_missing_field_reference() {
    let stack = TransformStack {
        base_epoch: 0,
        transforms: vec![transform("pawn", Operation::Modify, "strict_missing_field", "1.0", 110, "mod_c", None)],
    };

    let result = validate_stack(&stack);
    assert!(result.is_err());
    let errs = result.unwrap_err();
    assert_eq!(errs.len(), 1);
    if let Diagnostic::MissingField { path, transform_id } = &errs[0] {
        assert_eq!(path, "pawn.strict_missing_field");
        assert_eq!(transform_id, "mod_c:110");
    } else {
        panic!("Wrong diagnostic type generated");
    }
}

#[test]
fn test_tombstoned_field_reference() {
    let stack = TransformStack {
        base_epoch: 0,
        transforms: vec![
            transform("pawn", Operation::Deprecate, "old_trait", "", 120, "core", Some("new_trait")),
            transform("pawn", Operation::Modify, "old_trait", "1.5x", 125, "outdated_mod", None),
        ],
    };

    let result = validate_stack(&stack);
    assert!(result.is_err());
    let errs = result.unwrap_err();
    assert_eq!(errs.len(), 1);
    if let Diagnostic::FieldTombstoned { path, retired_at, successor } = &errs[0] {
        assert_eq!(path, "pawn.old_trait");
        assert_eq!(*retired_at, 120);
        assert_eq!(successor.as_ref().unwrap(), "new_trait");
    } else {
        panic!("Wrong diagnostic type generated");
    }
}

#[test]
fn empty_stack_validates() {
    let stack = TransformStack { base_epoch: 0, transforms: vec![] };
    assert_eq!(validate_stack(&stack), Ok(()));
}

#[test]
fn modify_then_add_on_same_field_conflicts_with_modify_epoch() {
    let stack = TransformStack {
        base_epoch: 0,
        transforms: vec![
            transform("pawn.needs", Operation::Modify, "hunger.depletion_rate", "0.8x", 7, "mod_a", None),
            transform("pawn.needs", Operation::AddField, "hunger.depletion_rate", "", 9, "mod_b", None),
        ],
    };
    let errs = validate_stack(&stack).unwrap_err();
    assert_eq!(
        errs,
        vec![Diagnostic::SameFieldConflict { path: "pawn.needs.hunger.depletion_rate".to_string(), epoch_a: 7, epoch_b: 9 }]
    );
}

#[test]
fn modify_of_unknown_non_strict_field_is_accepted() {
    let stack = TransformStack {
        base_epoch: 0,
        transforms: vec![transform("pawn.needs", Operation::Modify, "hunger.depletion_rate", "0.8x", 3, "mod", None)],
    };
    assert!(validate_stack(&stack).is_ok());
}

#[test]
fn deprecating_missing_strict_field_reports_and_still_tombstones() {
    let stack = TransformStack {
        base_epoch: 0,
        transforms: vec![
            transform("pawn", Operation::Deprecate, "strict_missing_x", "", 5, "core", None),
            transform("pawn", Operation::AddField, "strict_missing_x", "", 6, "late", None),
        ],
    };
    let errs = validate_stack(&stack).unwrap_err();
    assert_eq!(
        errs,
        vec![
            Diagnostic::MissingField { path: "pawn.strict_missing_x".to_string(), transform_id: "core:5".to_string() },
            Diagnostic::FieldTombstoned { path: "pawn.strict_missing_x".to_string(), retired_at: 5, successor: None },
        ]
    );
}

#[test]
fn tombstone_blocks_every_later_operation() {
    let stack = TransformStack {
        base_epoch: 0,
        transforms: vec![
            transform("pawn", Operation::AddField, "trait_a", "", 1, "a", None),
            transform("pawn", Operation::Deprecate, "trait_a", "", 2, "core", None),
            transform("pawn", Operation::AddField, "trait_a", "", 3, "b", None),
            transform("pawn", Operation::Deprecate, "trait_a", "", 4, "c", None),
        ],
    };
    let errs = validate_stack(&stack).unwrap_err();
    assert_eq!(errs.len(), 2);
    for e in &errs {
        assert_eq!(e, &Diagnostic::FieldTombstoned { path: "pawn.trait_a".to_string(), retired_at: 2, successor: None });
    }
}

#[test]
fn decimal_rendering() {
    assert_eq!(u64_to_decimal(0), "0");
    assert_eq!(u64_to_decimal(110), "110");
    assert_eq!(u64_to_decimal(u64::MAX), "18446744073709551615");
}

fn solidify_hunger(stack: &TransformStack, hunger: &mut f32) {
    if let Ok(values) = solidify_multipliers(stack) {
        for v in values {
            if let Ok(m) = v.replace("x", "").parse::<f32>() {
                *hunger *= m;
            }
        }
    }
}

#[test]
fn test_transactional_hot_reload_rollback() {
    let mut hunger: f32 = 100.0;
    let conflict_stack = TransformStack {
        base_epoch: 0,
        transforms: vec![transform("pawn", Operation::Modify, "strict_missing_field", "2.0x", 150, "bad_mod", None)],
    };
    let result = validate_stack(&conflict_stack);
    assert!(result.is_err(), "Stack should fail validation");
    assert!(solidify_multipliers(&conflict_stack).is_err());
    solidify_hunger(&conflict_stack, &mut hunger);
    assert_eq!(hunger, 100.0);
}

#[test]
fn valid_stack_yields_hunger_multipliers_in_order() {
    let stack = TransformStack {
        base_epoch: 0,
        transforms: vec![
            transform("pawn.needs", Operation::Modify, "hunger.depletion_rate", "0.5x", 1, "a", None),
            transform("pawn.needs", Operation::Modify, "thirst.depletion_rate", "3x", 2, "a", None),
            transform("pawn.needs", Operation::Modify, "hunger.depletion_rate", "4", 3, "b", None),
        ],
    };
    assert_eq!(solidify_multipliers(&stack).unwrap(), vec!["0.5x".to_string(), "4".to_string()]);
    let mut hunger: f32 = 1.0;
    solidify_hunger(&stack, &mut hunger);
    assert_eq!(hunger, 2.0);
}

#[test]
fn diagnostics_follow_their_transforms_in_stack_order() {
    let stack = TransformStack {
        base_epoch: 0,
        transforms: vec![
            transform("pawn", Operation::Modify, "strict_missing_a", "", 3, "mod_x", None),
            transform("pawn", Operation::AddField, "hp", "", 4, "mod_y", None),
            transform("pawn", Operation::AddField, "hp", "", 5, "mod_z", None),
            transform("item", Operation::Deprecate, "strict_missing_b", "", 6, "mod_w", None),
        ],
    };
    let errs = validate_stack(&stack).unwrap_err();
    assert_eq!(
        errs,
        vec![
            Diagnostic::MissingField { path: "pawn.strict_missing_a".to_string(), transform_id: "mod_x:3".to_string() },
            Diagnostic::SameFieldConflict { path: "pawn.hp".to_string(), epoch_a: 4, epoch_b: 5 },
            Diagnostic::MissingField { path: "item.strict_missing_b".to_string(), transform_id: "mod_w:6".to_string() },
        ]
    );
}
