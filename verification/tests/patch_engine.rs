use assuo::engine::{apply, do_patch};
use assuo::errors::{AssuoError, PatchError, ResolutionError};
use assuo::models::{AssuoFile, AssuoPatch, AssuoSource, Direction};

#[test]
fn empty_edit_list_returns_base() {
    let base = b"any bytes at all".to_vec();
    assert_eq!(apply(base.clone(), vec![]), Ok(base));
}

#[test]
fn empty_base_and_no_edits() {
    assert_eq!(apply(Vec::new(), vec![]), Ok(Vec::new()));
}

#[test]
fn insert_post_lands_after_spot() {
    let edit = AssuoPatch::<Vec<u8>>::Insert {
        way: Direction::Post,
        spot: 2,
        source: b"XY".to_vec(),
    };
    assert_eq!(apply(b"abcdef".to_vec(), vec![edit]), Ok(b"abcXYdef".to_vec()));
}

#[test]
fn insert_pre_lands_before_spot() {
    let edit = AssuoPatch::<Vec<u8>>::Insert {
        way: Direction::Pre,
        spot: 2,
        source: b"XY".to_vec(),
    };
    assert_eq!(apply(b"abcdef".to_vec(), vec![edit]), Ok(b"abXYcdef".to_vec()));
}

#[test]
fn remove_post_deletes_bytes_after_spot() {
    let edit = AssuoPatch::<Vec<u8>>::Remove { way: Direction::Post, spot: 2, count: 2 };
    assert_eq!(apply(b"abcdef".to_vec(), vec![edit]), Ok(b"abcf".to_vec()));
}

#[test]
fn remove_pre_deletes_bytes_before_spot() {
    let edit = AssuoPatch::<Vec<u8>>::Remove { way: Direction::Pre, spot: 4, count: 2 };
    assert_eq!(apply(b"abcdef".to_vec(), vec![edit]), Ok(b"abef".to_vec()));
}

#[test]
fn remove_count_zero_leaves_bytes_unchanged() {
    let edit = AssuoPatch::<Vec<u8>>::Remove { way: Direction::Post, spot: 1, count: 0 };
    assert_eq!(apply(b"abc".to_vec(), vec![edit]), Ok(b"abc".to_vec()));
}

#[test]
fn hello_world_insert_after_offset_four() {
    let file = AssuoFile::<AssuoSource> {
        source: AssuoSource::Text("Hello!".to_string()),
        patch: Some(vec![AssuoPatch::Insert {
            way: Direction::Post,
            spot: 4,
            source: AssuoSource::Text(", World".to_string()),
        }]),
    };
    assert_eq!(do_patch(file), Ok(b"Hello, World!".to_vec()));
}

#[test]
fn deleted_offset_merges_into_boundary() {
    let remove = AssuoPatch::<Vec<u8>>::Remove { way: Direction::Post, spot: 2, count: 2 };
    let insert = AssuoPatch::<Vec<u8>>::Insert {
        way: Direction::Pre,
        spot: 3,
        source: vec![88],
    };
    assert_eq!(apply(b"abcdef".to_vec(), vec![remove, insert]), Ok(b"abcXf".to_vec()));
}

#[test]
fn spot_beyond_base_is_out_of_bounds() {
    let edit = AssuoPatch::<Vec<u8>>::Insert {
        way: Direction::Post,
        spot: 10,
        source: b"X".to_vec(),
    };
    assert_eq!(
        apply(b"abc".to_vec(), vec![edit]),
        Err(PatchError::OutOfBounds { edit: 0, spot: 10 })
    );
}

#[test]
fn failing_edit_reports_its_index() {
    let first = AssuoPatch::<Vec<u8>>::Insert {
        way: Direction::Post,
        spot: 0,
        source: b"Z".to_vec(),
    };
    let second = AssuoPatch::<Vec<u8>>::Remove { way: Direction::Post, spot: 9, count: 1 };
    assert_eq!(
        apply(b"abc".to_vec(), vec![first, second]),
        Err(PatchError::OutOfBounds { edit: 1, spot: 9 })
    );
}

#[test]
fn remove_pre_with_too_large_count_underflows() {
    let edit = AssuoPatch::<Vec<u8>>::Remove { way: Direction::Pre, spot: 2, count: 3 };
    assert_eq!(
        apply(b"abcdef".to_vec(), vec![edit]),
        Err(PatchError::Underflow { edit: 0, spot: 2, count: 3 })
    );
}

#[test]
fn remove_post_past_end_is_out_of_bounds() {
    let edit = AssuoPatch::<Vec<u8>>::Remove { way: Direction::Post, spot: 2, count: 5 };
    assert_eq!(
        apply(b"abc".to_vec(), vec![edit]),
        Err(PatchError::OutOfBounds { edit: 0, spot: 2 })
    );
}

#[test]
fn do_patch_without_edit_list_returns_resolved_base() {
    let file = AssuoFile::<AssuoSource> {
        source: AssuoSource::Bytes(vec![1, 2, 3]),
        patch: None,
    };
    assert_eq!(do_patch(file), Ok(vec![1, 2, 3]));
}

#[test]
fn do_patch_on_unresolvable_base_fails() {
    let file = AssuoFile::<AssuoSource> {
        source: AssuoSource::Url("https://example.invalid/data".to_string()),
        patch: None,
    };
    assert_eq!(
        do_patch(file),
        Err(AssuoError::Resolution(ResolutionError::Unsupported))
    );
}

#[test]
fn do_patch_on_unresolvable_edit_source_fails() {
    let file = AssuoFile::<AssuoSource> {
        source: AssuoSource::Bytes(vec![0]),
        patch: Some(vec![AssuoPatch::Insert {
            way: Direction::Post,
            spot: 0,
            source: AssuoSource::File("somewhere.bin".to_string()),
        }]),
    };
    assert_eq!(
        do_patch(file),
        Err(AssuoError::Resolution(ResolutionError::Unsupported))
    );
}

#[test]
fn do_patch_out_of_bounds_wraps_patch_error() {
    let file = AssuoFile::<AssuoSource> {
        source: AssuoSource::Bytes(vec![7, 8]),
        patch: Some(vec![AssuoPatch::Remove { way: Direction::Post, spot: 5, count: 1 }]),
    };
    assert_eq!(
        do_patch(file),
        Err(AssuoError::Patch(PatchError::OutOfBounds { edit: 0, spot: 5 }))
    );
}

#[test]
fn edits_apply_in_document_order() {
    let first = AssuoPatch::<Vec<u8>>::Insert {
        way: Direction::Pre,
        spot: 0,
        source: b">>".to_vec(),
    };
    let second = AssuoPatch::<Vec<u8>>::Remove { way: Direction::Post, spot: 0, count: 1 };
    assert_eq!(apply(b"abc".to_vec(), vec![first, second]), Ok(b">>ac".to_vec()));
}

#[test]
fn largest_spot_is_out_of_bounds() {
    let edit = AssuoPatch::<Vec<u8>>::Remove { way: Direction::Pre, spot: usize::MAX, count: 0 };
    assert_eq!(
        apply(b"abc".to_vec(), vec![edit]),
        Err(PatchError::OutOfBounds { edit: 0, spot: usize::MAX })
    );
}
