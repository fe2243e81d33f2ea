use node_heap::boxed::HeapBox;
use node_heap::node::Pool;
use std::cell::Cell;
use std::rc::Rc;

struct Tally {
    id: u32,
    drops: Rc<Cell<u32>>,
}

impl Drop for Tally {
    fn drop(&mut self) {
        self.drops.set(self.drops.get() + 1);
    }
}

fn tally(id: u32, drops: &Rc<Cell<u32>>) -> Tally {
    Tally { id, drops: Rc::clone(drops) }
}

#[test]
fn box_holds_its_value() {
    let mut pool: Pool<u32> = Pool::new(0x1000, 16, 4).unwrap();
    let b = HeapBox::new(&mut pool, 7).ok().unwrap();
    assert!(b.is_valid(&pool));
    assert_eq!(*b.deref(&pool), 7);
    b.drop(&mut pool);
}

#[test]
fn box_deref_mut_writes_through() {
    let mut pool: Pool<String> = Pool::new(0x1000, 16, 4).unwrap();
    let mut a = HeapBox::new(&mut pool, String::from("left")).ok().unwrap();
    let b = HeapBox::new(&mut pool, String::from("right")).ok().unwrap();
    a.deref_mut(&mut pool).push_str("most");
    assert_eq!(a.deref(&pool), "leftmost");
    assert_eq!(b.deref(&pool), "right");
    *a.deref_mut(&mut pool) = String::from("new");
    assert_eq!(a.deref(&pool), "new");
    a.drop(&mut pool);
    b.drop(&mut pool);
}

#[test]
fn box_drop_destroys_once_and_frees_the_node() {
    let drops = Rc::new(Cell::new(0));
    let mut pool: Pool<Tally> = Pool::new(0x1000, 16, 1).unwrap();
    let b = HeapBox::new(&mut pool, tally(1, &drops)).ok().unwrap();
    let handle = b.handle();
    assert!(pool.is_active(handle));
    assert_eq!(pool.lookup(0x1000), Some(handle));
    assert_eq!(drops.get(), 0);
    b.drop(&mut pool);
    assert_eq!(drops.get(), 1);
    assert!(!pool.is_active(handle));
    assert_eq!(pool.lookup(0x1000), None);
    assert!(!HeapBox::<Tally>::is_adoptable(&pool, 0x1000));
    let again = HeapBox::new(&mut pool, tally(2, &drops)).ok().unwrap();
    assert_eq!(again.deref(&pool).id, 2);
    assert_eq!(drops.get(), 1);
    again.drop(&mut pool);
    assert_eq!(drops.get(), 2);
}

#[test]
fn box_new_on_a_full_pool_returns_the_value() {
    let mut pool: Pool<String> = Pool::new(0, 16, 1).unwrap();
    let first = HeapBox::new(&mut pool, String::from("kept")).ok().unwrap();
    let second = HeapBox::new(&mut pool, String::from("rejected"));
    assert_eq!(second.err(), Some(String::from("rejected")));
    assert_eq!(first.deref(&pool), "kept");
    first.drop(&mut pool);
}

#[test]
fn box_leak_returns_the_address_of_the_value() {
    let mut pool: Pool<u8> = Pool::new(0x4000, 32, 3).unwrap();
    let a = HeapBox::new(&mut pool, 1).ok().unwrap();
    let b = HeapBox::new(&mut pool, 2).ok().unwrap();
    let c = HeapBox::new(&mut pool, 3).ok().unwrap();
    assert_eq!(c.leak(&pool), 0x4040);
    assert_eq!(a.leak(&pool), 0x4000);
    assert_eq!(b.leak(&pool), 0x4020);
}

#[test]
fn box_leak_then_adopt_gives_the_same_value() {
    let drops = Rc::new(Cell::new(0));
    let mut pool: Pool<Tally> = Pool::new(0x4000, 32, 2).unwrap();
    let filler = HeapBox::new(&mut pool, tally(0, &drops)).ok().unwrap();
    let b = HeapBox::new(&mut pool, tally(41, &drops)).ok().unwrap();
    let ptr = b.leak(&pool);
    assert_eq!(ptr, 0x4020);
    assert!(HeapBox::<Tally>::is_adoptable(&pool, ptr));
    assert_eq!(drops.get(), 0);
    let back = HeapBox::from_leaked(&pool, ptr);
    assert!(back.is_valid(&pool));
    assert_eq!(back.deref(&pool).id, 41);
    assert_eq!(drops.get(), 0);
    back.drop(&mut pool);
    assert_eq!(drops.get(), 1);
    filler.drop(&mut pool);
    assert_eq!(drops.get(), 2);
}

#[test]
fn box_leaked_for_good_is_never_destroyed() {
    let drops = Rc::new(Cell::new(0));
    let mut pool: Pool<Tally> = Pool::new(0, 32, 2).unwrap();
    let b = HeapBox::new(&mut pool, tally(5, &drops)).ok().unwrap();
    let ptr = b.leak(&pool);
    let thrown_away = ptr;
    let _ = thrown_away;
    assert_eq!(drops.get(), 0);
    let other = HeapBox::new(&mut pool, tally(6, &drops)).ok().unwrap();
    other.drop(&mut pool);
    assert_eq!(drops.get(), 1);
    assert_eq!(pool.read(ptr, 0).id, 5);
    assert!(pool.is_init(ptr, 0));
}

#[test]
fn box_is_adoptable_tells_values_from_other_addresses() {
    let mut pool: Pool<u8> = Pool::new(0x100, 8, 3).unwrap();
    let b = HeapBox::new(&mut pool, 1).ok().unwrap();
    let run = pool.activate_array(vec![1, 2]).ok().unwrap();
    let blank = pool.activate_uninit(1).unwrap();
    assert!(HeapBox::<u8>::is_adoptable(&pool, 0x100));
    assert!(!HeapBox::<u8>::is_adoptable(&pool, 0x101));
    assert!(!HeapBox::<u8>::is_adoptable(&pool, pool.resolve(run).0));
    assert!(!HeapBox::<u8>::is_adoptable(&pool, pool.resolve(blank).0));
    assert!(!HeapBox::<u8>::is_adoptable(&pool, 0x100 + 24));
    b.drop(&mut pool);
    assert!(!HeapBox::<u8>::is_adoptable(&pool, 0x100));
}
