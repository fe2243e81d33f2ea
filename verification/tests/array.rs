use node_heap::array::HeapArray;
use node_heap::node::Pool;
use std::cell::RefCell;
use std::rc::Rc;

struct Item {
    id: u32,
    log: Rc<RefCell<Vec<u32>>>,
}

impl Drop for Item {
    fn drop(&mut self) {
        self.log.borrow_mut().push(self.id);
    }
}

fn items(ids: &[u32], log: &Rc<RefCell<Vec<u32>>>) -> Vec<Item> {
    let mut out = Vec::new();
    for id in ids {
        out.push(Item { id: *id, log: Rc::clone(log) });
    }
    out
}

#[test]
fn array_of_five_destroys_five_elements_each_once() {
    let log = Rc::new(RefCell::new(Vec::new()));
    let mut pool: Pool<Item> = Pool::new(0x1000, 64, 2).unwrap();
    let a = HeapArray::new(&mut pool, items(&[10, 11, 12, 13, 14], &log)).ok().unwrap();
    assert_eq!(a.len(&pool), 5);
    assert!(log.borrow().is_empty());
    a.drop(&mut pool);
    assert_eq!(log.borrow().len(), 5);
    let mut seen = log.borrow().clone();
    seen.sort();
    assert_eq!(seen, vec![10, 11, 12, 13, 14]);
    assert_eq!(*log.borrow(), vec![10, 11, 12, 13, 14]);
    assert_eq!(pool.lookup(0x1000), None);
}

#[test]
fn array_gives_its_elements_in_order() {
    let mut pool: Pool<String> = Pool::new(0x1000, 64, 2).unwrap();
    let a = HeapArray::new(
        &mut pool,
        vec![String::from("x"), String::from("y"), String::from("z")],
    ).ok().unwrap();
    assert!(a.is_valid(&pool));
    assert_eq!(pool.resolve(a.handle()), (0x1000, 3));
    assert_eq!(a.len(&pool), 3);
    assert_eq!(a.deref(&pool), vec!["x", "y", "z"]);
    a.drop(&mut pool);
}

#[test]
fn array_deref_mut_writes_one_element() {
    let mut pool: Pool<u32> = Pool::new(0x1000, 64, 2).unwrap();
    let mut a = HeapArray::new(&mut pool, vec![1, 2, 3, 4]).ok().unwrap();
    let b = HeapArray::new(&mut pool, vec![9, 9]).ok().unwrap();
    *a.deref_mut(&mut pool, 2) = 30;
    *a.deref_mut(&mut pool, 0) += 10;
    assert_eq!(a.deref(&pool), vec![&11, &2, &30, &4]);
    assert_eq!(b.deref(&pool), vec![&9, &9]);
    assert_eq!(a.len(&pool), 4);
    a.drop(&mut pool);
    b.drop(&mut pool);
}

#[test]
fn array_of_nothing_is_dropped_without_a_destructor() {
    let log: Rc<RefCell<Vec<u32>>> = Rc::new(RefCell::new(Vec::new()));
    let mut pool: Pool<Item> = Pool::new(0x1000, 64, 1).unwrap();
    let a = HeapArray::new(&mut pool, items(&[], &log)).ok().unwrap();
    assert_eq!(a.len(&pool), 0);
    assert!(a.deref(&pool).is_empty());
    a.drop(&mut pool);
    assert!(log.borrow().is_empty());
    assert_eq!(pool.lookup(0x1000), None);
}

#[test]
fn array_leak_returns_address_and_count_and_destroys_nothing() {
    let log = Rc::new(RefCell::new(Vec::new()));
    let mut pool: Pool<Item> = Pool::new(0x1000, 64, 2).unwrap();
    let first = HeapArray::new(&mut pool, items(&[1], &log)).ok().unwrap();
    let a = HeapArray::new(&mut pool, items(&[7, 8, 9], &log)).ok().unwrap();
    assert_eq!(a.leak(&pool), (0x1040, 3));
    assert!(log.borrow().is_empty());
    assert_eq!(pool.read(0x1040, 2).id, 9);
    first.drop(&mut pool);
    assert_eq!(*log.borrow(), vec![1]);
    assert!(pool.is_init(0x1040, 0));
}

#[test]
fn array_new_on_a_full_pool_returns_the_values() {
    let mut pool: Pool<u8> = Pool::new(0, 8, 1).unwrap();
    let a = HeapArray::new(&mut pool, vec![1, 2]).ok().unwrap();
    assert_eq!(HeapArray::new(&mut pool, vec![3, 4, 5]).err(), Some(vec![3, 4, 5]));
    assert_eq!(a.deref(&pool), vec![&1, &2]);
    a.drop(&mut pool);
}

#[test]
fn array_is_valid_needs_every_element() {
    let mut pool: Pool<u8> = Pool::new(0, 8, 1).unwrap();
    let a = HeapArray::new(&mut pool, vec![1, 2, 3]).ok().unwrap();
    assert!(a.is_valid(&pool));
    pool.drop_in_place(0, 1);
    assert!(!a.is_valid(&pool));
    pool.write(0, 1, 20);
    assert!(a.is_valid(&pool));
    assert_eq!(a.deref(&pool), vec![&1, &20, &3]);
    a.drop(&mut pool);
}
