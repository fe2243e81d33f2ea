use node_heap::node::Pool;
use std::cell::Cell;
use std::rc::Rc;

struct Canary {
    id: u32,
    drops: Rc<Cell<u32>>,
}

impl Drop for Canary {
    fn drop(&mut self) {
        self.drops.set(self.drops.get() + 1);
    }
}

fn canary(id: u32, drops: &Rc<Cell<u32>>) -> Canary {
    Canary { id, drops: Rc::clone(drops) }
}

#[test]
fn pool_rejects_zero_stride() {
    assert!(Pool::<u8>::new(0x1000, 0, 4).is_none());
}

#[test]
fn pool_rejects_nodes_beyond_the_address_space() {
    assert!(Pool::<u8>::new(usize::MAX - 63, 32, 2).is_none());
    assert!(Pool::<u8>::new(16, usize::MAX, 2).is_none());
    assert!(Pool::<u8>::new(usize::MAX - 64, 32, 2).is_some());
}

#[test]
fn pool_reports_capacity_and_stride() {
    let pool: Pool<u8> = Pool::new(0x1000, 48, 5).unwrap();
    assert_eq!(pool.capacity(), 5);
    assert_eq!(pool.stride(), 48);
}

#[test]
fn pool_of_no_nodes_activates_nothing() {
    let mut pool: Pool<u8> = Pool::new(0, 1, 0).unwrap();
    assert_eq!(pool.activate(9).err(), Some(9));
    assert!(pool.activate_uninit(3).is_none());
}

#[test]
fn activate_takes_the_first_vacant_node() {
    let mut pool: Pool<u32> = Pool::new(0x1000, 0x40, 3).unwrap();
    let a = pool.activate(10).ok().unwrap();
    let b = pool.activate(20).ok().unwrap();
    assert_eq!(pool.resolve(a), (0x1000, 1));
    assert_eq!(pool.resolve(b), (0x1040, 1));
    assert!(pool.is_active(a));
    assert!(pool.is_active(b));
    assert_ne!(a, b);
}

#[test]
fn activate_on_a_full_pool_returns_the_value() {
    let mut pool: Pool<String> = Pool::new(0, 8, 1).unwrap();
    assert!(pool.activate(String::from("first")).is_ok());
    assert_eq!(pool.activate(String::from("second")).err(), Some(String::from("second")));
    assert_eq!(pool.activate_array(vec![String::from("x"), String::from("y")]).err(),
        Some(vec![String::from("x"), String::from("y")]));
    assert!(pool.activate_uninit(2).is_none());
}

#[test]
fn from_leaked_ptr_inverts_resolve() {
    let mut pool: Pool<u8> = Pool::new(0x2000, 24, 4).unwrap();
    let a = pool.activate(1).ok().unwrap();
    let b = pool.activate(2).ok().unwrap();
    let c = pool.activate(3).ok().unwrap();
    for h in [a, b, c] {
        let (addr, count) = pool.resolve(h);
        assert_eq!(count, 1);
        assert_eq!(pool.from_leaked_ptr(addr), h);
        assert_eq!(pool.lookup(addr), Some(h));
    }
    assert_eq!(pool.resolve(c).0, 0x2000 + 2 * 24);
}

#[test]
fn lookup_rejects_what_is_no_node_address() {
    let mut pool: Pool<u8> = Pool::new(0x2000, 24, 2).unwrap();
    let a = pool.activate(1).ok().unwrap();
    assert_eq!(pool.lookup(0x2000), Some(a));
    assert_eq!(pool.lookup(0x1fff), None);
    assert_eq!(pool.lookup(0x2001), None);
    assert_eq!(pool.lookup(0x2000 + 24), None);
    assert_eq!(pool.lookup(0x2000 + 48), None);
    assert_eq!(pool.lookup(0), None);
    assert_eq!(pool.lookup(usize::MAX), None);
}

#[test]
fn read_gives_what_was_activated() {
    let mut pool: Pool<String> = Pool::new(64, 64, 2).unwrap();
    let h = pool.activate_array(vec![String::from("a"), String::from("b"), String::from("c")])
        .ok()
        .unwrap();
    let (addr, count) = pool.resolve(h);
    assert_eq!(count, 3);
    assert_eq!(pool.read(addr, 0), "a");
    assert_eq!(pool.read(addr, 1), "b");
    assert_eq!(pool.read(addr, 2), "c");
    let all = pool.from_raw_parts(addr, 3);
    assert_eq!(all, vec!["a", "b", "c"]);
    let two = pool.from_raw_parts(addr, 2);
    assert_eq!(two, vec!["a", "b"]);
    assert!(pool.from_raw_parts(addr, 0).is_empty());
}

#[test]
fn uninitialised_run_is_filled_by_write() {
    let mut pool: Pool<u32> = Pool::new(0, 16, 1).unwrap();
    let h = pool.activate_uninit(3).unwrap();
    let (addr, count) = pool.resolve(h);
    assert_eq!(count, 3);
    assert!(!pool.is_init(addr, 0));
    assert!(!pool.is_init(addr, 1));
    assert!(!pool.is_init(addr, 2));
    assert!(!pool.is_init(addr, 3));
    pool.write(addr, 1, 77);
    assert!(!pool.is_init(addr, 0));
    assert!(pool.is_init(addr, 1));
    assert!(!pool.is_init(addr, 2));
    assert_eq!(*pool.read(addr, 1), 77);
}

#[test]
fn load_mut_changes_that_cell_only() {
    let mut pool: Pool<u32> = Pool::new(0, 16, 2).unwrap();
    let h = pool.activate_array(vec![1, 2, 3]).ok().unwrap();
    let other = pool.activate(9).ok().unwrap();
    let (addr, _) = pool.resolve(h);
    *pool.load_mut(addr, 1) += 40;
    assert_eq!(pool.from_raw_parts(addr, 3), vec![&1, &42, &3]);
    let (other_addr, _) = pool.resolve(other);
    assert_eq!(*pool.read(other_addr, 0), 9);
}

#[test]
fn drop_in_place_destroys_one_value_once() {
    let drops = Rc::new(Cell::new(0));
    let mut pool: Pool<Canary> = Pool::new(0, 16, 1).unwrap();
    let h = pool.activate_array(vec![canary(0, &drops), canary(1, &drops)]).ok().unwrap();
    let (addr, _) = pool.resolve(h);
    assert_eq!(drops.get(), 0);
    pool.drop_in_place(addr, 1);
    assert_eq!(drops.get(), 1);
    assert!(pool.is_init(addr, 0));
    assert!(!pool.is_init(addr, 1));
    assert_eq!(pool.read(addr, 0).id, 0);
    pool.drop_in_place(addr, 0);
    assert_eq!(drops.get(), 2);
    pool.deactivate(h);
    assert_eq!(drops.get(), 2);
    assert!(!pool.is_active(h));
}

#[test]
fn deactivated_node_is_handed_out_again() {
    let mut pool: Pool<u8> = Pool::new(0x100, 8, 2).unwrap();
    let a = pool.activate(1).ok().unwrap();
    let b = pool.activate(2).ok().unwrap();
    let (addr_a, _) = pool.resolve(a);
    pool.drop_in_place(addr_a, 0);
    pool.deactivate(a);
    assert!(!pool.is_active(a));
    assert!(pool.is_active(b));
    assert_eq!(pool.lookup(addr_a), None);
    let c = pool.activate(3).ok().unwrap();
    assert_eq!(c, a);
    assert_eq!(pool.resolve(c), (0x100, 1));
    assert_eq!(*pool.read(0x100, 0), 3);
    assert_eq!(*pool.read(0x108, 0), 2);
}

#[test]
fn pool_may_span_the_whole_address_space() {
    let mut pool: Pool<u8> = Pool::new(0, 1, usize::MAX).unwrap();
    assert_eq!(pool.capacity(), usize::MAX);
    assert!(Pool::<u8>::new(1, 1, usize::MAX).is_none());
    assert!(Pool::<u8>::new(0, 2, usize::MAX).is_none());
    let a = pool.activate(5).ok().unwrap();
    let b = pool.activate(6).ok().unwrap();
    assert_eq!(pool.resolve(a), (0, 1));
    assert_eq!(pool.resolve(b), (1, 1));
    assert_eq!(pool.lookup(2), None);
    assert_eq!(pool.lookup(usize::MAX), None);
}
