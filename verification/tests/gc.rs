use cflox::gc::Heap;

#[test]
fn i_can_leak_memory_yikes() {
    let mut heap = Heap::new();
    let wat = heap.allocate("hello?".to_owned());

    assert!(heap.get(wat).is_ascii());

    let mut s = heap.get(wat).clone();
    s.push('?');
    heap.set(wat, s);

    assert!(heap.get(wat).eq("hello??"));

    let wat2 = wat;
    let mut s = heap.get(wat).clone();
    s.push('!');
    heap.set(wat, s);
    let mut s = heap.get(wat2).clone();
    s.push('~');
    heap.set(wat2, s);
    assert!(heap.get(wat2).eq(heap.get(wat)));
    assert!(heap.get(wat2).eq("hello??!~"));
}

#[test]
fn handles_keep_their_values() {
    let mut heap = Heap::new();
    let a = heap.allocate(1);
    let b = heap.allocate(2);
    heap.set(a, 10);
    assert_eq!(*heap.get(a), 10);
    assert_eq!(*heap.get(b), 2);
}
