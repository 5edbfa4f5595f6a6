use blake_bench::selector::{ImplKind, Pattern};

#[test]
fn impl_names_are_fixed() {
    assert_eq!(ImplKind::Blake3Single.name(), "blake3_single");
    assert_eq!(ImplKind::Blake3Parallel.name(), "blake3_parallel");
    assert_eq!(ImplKind::Blake2b256.name(), "blake2b_256");
    assert_eq!(ImplKind::Blake2s256.name(), "blake2s_256v1");
}

#[test]
fn pattern_names_are_fixed() {
    assert_eq!(Pattern::Random.name(), "random");
    assert_eq!(Pattern::Zero.name(), "zero");
    assert_eq!(Pattern::Repeat16.name(), "repeat16");
}

#[test]
fn all_impls_without_parallel() {
    assert_eq!(
        ImplKind::all(false),
        vec![ImplKind::Blake3Single, ImplKind::Blake2b256, ImplKind::Blake2s256]
    );
}

#[test]
fn all_impls_with_parallel_in_second_place() {
    assert_eq!(
        ImplKind::all(true),
        vec![
            ImplKind::Blake3Single,
            ImplKind::Blake3Parallel,
            ImplKind::Blake2b256,
            ImplKind::Blake2s256
        ]
    );
}

#[test]
fn all_patterns_in_generation_order() {
    assert_eq!(Pattern::all().to_vec(), vec![Pattern::Random, Pattern::Zero, Pattern::Repeat16]);
}

#[test]
fn impl_ranks_follow_the_names() {
    let all = [
        ImplKind::Blake3Single,
        ImplKind::Blake3Parallel,
        ImplKind::Blake2b256,
        ImplKind::Blake2s256,
    ];
    for a in all {
        for b in all {
            assert_eq!(a.rank() < b.rank(), a.name() < b.name());
            assert_eq!(a.rank() == b.rank(), a == b);
        }
    }
}

#[test]
fn pattern_ranks_follow_the_names() {
    let all = [Pattern::Random, Pattern::Zero, Pattern::Repeat16];
    for a in all {
        for b in all {
            assert_eq!(a.rank() < b.rank(), a.name() < b.name());
            assert_eq!(a.rank() == b.rank(), a == b);
        }
    }
}
