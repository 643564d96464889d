use futex_sync::futex::{access, access_wide, Action, Memord, Place};

const WORD: Place = Place::Mutex;
const ANY: Memord = Memord::Relaxed;

#[test]
fn load_returns_the_contents_and_leaves_them() {
    let mut w = 7u32;
    assert_eq!(access(&mut w, Action::Load { place: WORD, order: ANY }), 7);
    assert_eq!(w, 7);
}

#[test]
fn store_writes_and_returns_nothing() {
    let mut w = 7u32;
    assert_eq!(access(&mut w, Action::Store { place: WORD, value: 3, order: ANY }), 0);
    assert_eq!(w, 3);
}

#[test]
fn swap_writes_and_returns_what_was_there() {
    let mut w = 7u32;
    assert_eq!(access(&mut w, Action::Swap { place: WORD, value: 3, order: ANY }), 7);
    assert_eq!(w, 3);
}

#[test]
fn compare_and_swap_writes_only_on_a_match() {
    let mut w = 1u32;
    let cas = Action::CompareAndSwap { place: WORD, current: 0, new: 9, order: ANY };
    assert_eq!(access(&mut w, cas), 1);
    assert_eq!(w, 1);
    w = 0;
    assert_eq!(access(&mut w, cas), 0);
    assert_eq!(w, 9);
}

#[test]
fn fetch_add_wraps_around() {
    let mut w = u32::MAX - 1;
    let add = Action::FetchAdd { place: WORD, value: 3, order: ANY };
    assert_eq!(access(&mut w, add), (u32::MAX - 1) as usize);
    assert_eq!(w, 1);
    let mut c = usize::MAX;
    assert_eq!(access_wide(&mut c, add), usize::MAX);
    assert_eq!(c, 2);
}

#[test]
fn bind_writes_only_over_zero() {
    let mut p = 0usize;
    let bind = Action::Bind { mutex: 0x40, order: Memord::AcqRel };
    assert_eq!(access_wide(&mut p, bind), 0);
    assert_eq!(p, 0x40);
    assert_eq!(access_wide(&mut p, Action::Bind { mutex: 0x80, order: Memord::AcqRel }), 0x40);
    assert_eq!(p, 0x40);
    let mut w = 0u32;
    assert_eq!(access(&mut w, bind), 0);
    assert_eq!(w, 0);
}

#[test]
fn wide_accesses_behave_like_narrow_ones() {
    let mut c = 5usize;
    assert_eq!(access_wide(&mut c, Action::Load { place: Place::Count, order: ANY }), 5);
    assert_eq!(access_wide(&mut c, Action::Swap { place: Place::Count, value: 8, order: ANY }), 5);
    assert_eq!(c, 8);
    assert_eq!(access_wide(&mut c, Action::Store { place: Place::Count, value: 0, order: ANY }), 0);
    assert_eq!(c, 0);
    let cas = Action::CompareAndSwap { place: Place::Count, current: 0, new: 4, order: ANY };
    assert_eq!(access_wide(&mut c, cas), 0);
    assert_eq!(c, 4);
    assert_eq!(access_wide(&mut c, cas), 4);
    assert_eq!(c, 4);
}

#[test]
fn kernel_calls_and_pauses_touch_no_contents() {
    let mut w = 2u32;
    for a in [
        Action::Wait { place: WORD, expected: 2 },
        Action::Wake { place: WORD, count: 1 },
        Action::Requeue { place: Place::Epoch, wake: 1, requeue: 5, target: 0x40 },
        Action::Relax,
    ] {
        assert_eq!(a.place(), None);
        assert_eq!(access(&mut w, a), 0);
        assert_eq!(w, 2);
    }
}

#[test]
fn every_access_names_its_place() {
    assert_eq!(Action::Load { place: Place::Epoch, order: ANY }.place(), Some(Place::Epoch));
    assert_eq!(
        Action::FetchAdd { place: Place::Count, value: 1, order: ANY }.place(),
        Some(Place::Count)
    );
    assert_eq!(Action::Bind { mutex: 1, order: ANY }.place(), Some(Place::Bound));
}
