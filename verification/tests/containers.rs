use api_query::auto_vec::AutoVec;
use api_query::cowstr::Cowstr;
use api_query::pool::Pool;
use api_query::util::vec_change_lifetime_move;
use std::cell::Cell;

#[test]
fn auto_vec_reads_fill_where_nothing_is_stored() {
    let vec: AutoVec<u32> = AutoVec::new(7);
    assert_eq!(vec.len(), 0);
    assert_eq!(vec.get_copy(0), 7);
    assert_eq!(vec.get_copy(1000), 7);
    assert_eq!(vec.get_copy(usize::MAX), 7);
}

#[test]
fn auto_vec_extends_on_set() {
    let mut vec: AutoVec<u32> = AutoVec::new(7);
    vec.set(3, 1);
    assert_eq!(vec.len(), 4);
    assert_eq!(
        (0..5).map(|i| vec.get_copy(i)).collect::<Vec<_>>(),
        vec![7, 7, 7, 1, 7]
    );
    vec.set(1, 2);
    assert_eq!(vec.len(), 4);
    assert_eq!(
        (0..5).map(|i| vec.get_copy(i)).collect::<Vec<_>>(),
        vec![7, 2, 7, 1, 7]
    );
    vec.set(0, 9);
    vec.set(3, 0);
    assert_eq!(
        (0..4).map(|i| vec.get_copy(i)).collect::<Vec<_>>(),
        vec![9, 2, 7, 0]
    );
}

#[test]
fn auto_vec_extends_on_get_mut() {
    let mut vec: AutoVec<i64> = AutoVec::new(-1);
    assert_eq!(*vec.get_mut(2), -1);
    assert_eq!(vec.len(), 3);
    *vec.get_mut(2) = 5;
    *vec.get_mut(0) += 10;
    assert_eq!((0..4).map(|i| vec.get_copy(i)).collect::<Vec<_>>(), vec![9, -1, 5, -1]);
    assert_eq!(vec.len(), 3);
}

#[test]
fn auto_vec_saturating_inc() {
    let mut vec: AutoVec<u8> = AutoVec::new(0);
    assert_eq!(vec.saturating_inc(2), 1);
    assert_eq!(vec.saturating_inc(2), 2);
    assert_eq!(vec.len(), 3);
    assert_eq!(vec.get_copy(2), 2);
    assert_eq!(vec.get_copy(1), 0);
    vec.set(0, 254);
    assert_eq!(vec.saturating_inc(0), 255);
    assert_eq!(vec.saturating_inc(0), 255);
    assert_eq!(vec.get_copy(0), 255);
}

#[test]
fn auto_vec_inc_starts_from_fill() {
    let mut vec: AutoVec<u8> = AutoVec::new(10);
    assert_eq!(vec.saturating_inc(1), 11);
    assert_eq!(vec.get_copy(0), 10);
}

#[test]
fn pool_makes_a_handle_where_none_is_idle() {
    let made = Cell::new(0u32);
    let mut pool = Pool::new(|| {
        made.set(made.get() + 1);
        made.get()
    });
    assert_eq!(pool.num_idle(), 0);
    assert_eq!(pool.get_item(), 1);
    assert_eq!(pool.get_item(), 2);
    assert_eq!(made.get(), 2);
}

#[test]
fn pool_hands_out_what_came_back() {
    let made = Cell::new(0u32);
    let mut pool = Pool::new(|| {
        made.set(made.get() + 1);
        made.get()
    });
    let first = pool.get_item();
    let second = pool.get_item();
    pool.enqueue(first);
    pool.enqueue(second);
    assert_eq!(pool.num_idle(), 2);
    assert_eq!(pool.get_item(), 2);
    assert_eq!(pool.get_item(), 1);
    assert_eq!(pool.num_idle(), 0);
    assert_eq!(pool.get_item(), 3);
    assert_eq!(made.get(), 3);
}

#[test]
fn pool_never_shrinks() {
    let mut pool = Pool::new(|| String::from("handle"));
    for round in 1..=5 {
        let handles: Vec<String> = (0..round).map(|_| pool.get_item()).collect();
        for handle in handles {
            pool.enqueue(handle);
        }
        assert_eq!(pool.num_idle(), round);
    }
}

#[test]
fn cowstr_reads_as_text_and_bytes() {
    let borrowed = Cowstr::from("grüße");
    let owned = Cowstr::from(String::from("grüße"));
    assert!(matches!(borrowed, Cowstr::Str(_)));
    assert!(matches!(owned, Cowstr::String(_)));
    assert_eq!(borrowed.as_str(), "grüße");
    assert_eq!(owned.as_str(), "grüße");
    assert_eq!(borrowed.as_bytes(), "grüße".as_bytes());
    let text: &str = owned.as_ref();
    let bytes: &[u8] = owned.as_ref();
    assert_eq!(text, "grüße");
    assert_eq!(bytes, "grüße".as_bytes());
}

#[test]
fn emptied_vector() {
    let texts = vec![String::from("a"), String::from("b")];
    let emptied: Vec<u32> = vec_change_lifetime_move(texts);
    assert!(emptied.is_empty());
}
