use std::collections::HashMap;
use std::ops::Deref;
use std::pin::Pin;
use std::sync::Mutex;

struct DerefExample<T> {
    value: T,
}

impl<T> Deref for DerefExample<T> {
    type Target = T;

    fn deref(&self) -> &Self::Target {
        &self.value
    }
}

#[test]
fn test_deref() {
    let x = DerefExample { value: 'a' };
    let result = *x;

    assert_eq!('a', result);

    let _result = &x;
}

#[test]
fn test_deref_1() {
    let foo = Box::new(5i32);

    let _bar: &i32 = &foo;
    let bar = &(*(foo.deref()));

    let step1: &i32 = foo.deref();
    let step2: i32 = *step1;
    let step3: &i32 = &step2;
    println!("step3: {}", step3);
    println!("{}", bar);
}

#[test]
fn test_deref_2() {
    let foo = Box::new(5i32);
    let _step1 = *foo;
    let _step2 = foo.deref();
    let _step3 = *foo.deref();

    let foo = String::from("hello world");

    foo.split(" ").for_each(|item| println!("{item}"));

    let foo = vec![10, 20, 30];
    println!("foo.first: {:?}", foo.first());

    let foo = Mutex::new("hello world");
    let foo_guard = foo.lock().unwrap();
    foo_guard.split(" ").for_each(|item| println!("{item}"));

    let foo = Box::pin(String::from("Hello world"));
    foo.split(" ").for_each(|s| println!("{s}"));
    (*foo)[..].split(" ").for_each(|s| println!("{s}"));
}

#[test]
fn test_map_or_insert() {
    let mut map = HashMap::new();
    let value = map.entry("hello".to_string()).or_insert(0);
    *value += 3;

    println!("{:?}", map);
}

fn stringify(x: u32) -> String {
    format!("error code: {}", x)
}

#[test]
fn test_result_map_err() {
    let x: Result<u32, u32> = Ok(2);
    assert_eq!(x.map_err(stringify), Ok(2));

    let x: Result<u32, u32> = Err(13);
    assert_eq!(x.map_err(stringify), Err("error code: 13".to_string()));
}

#[test]
fn test_self_reference() {
    let _s = "Hello, world!".to_string();
}

#[derive(Debug)]
struct Foo {
    x: i32,
    y: i32,
}

impl Foo {
    fn new() -> Foo {
        Foo { x: 0, y: 0 }
    }
}

#[test]
fn test_foo_pin() {
    let box_foo = Box::new(Foo::new());

    let pin_foo = Pin::new(box_foo);

    let foo_ref = &*pin_foo;

    println!("{:?}", foo_ref);
    assert_eq!(foo_ref.x + foo_ref.y, 0);

    let _pin1 = Box::pin(Foo::new());
}
