//! Smart pointers of the language that the library is written in.

use std::cell::RefCell;
use std::rc::Rc;

#[test]
fn rc_with_refcell() {
    let s = Rc::new(RefCell::new("我很善变，还拥有多个主人".to_string()));

    let s1 = s.clone();
    let s2 = s.clone();
    s2.borrow_mut().push_str(", oh yeah!");

    println!("{:?}\n{:?}\n{:?}", s, s1, s2);
    assert!(s1.borrow().ends_with(", oh yeah!"));
}

fn append_shared(s: Rc<RefCell<String>>) {
    s.borrow_mut().push_str(", oh yeah!");
    println!("{:?}", s);
}

fn print_shared(s: Rc<RefCell<String>>) {
    println!("{:?}", s);
}

#[test]
fn rc_with_refcell_1() {
    let s = Rc::new(RefCell::new("我很善变，还拥有多个主人".to_string()));

    append_shared(s.clone());
    append_shared(s.clone());
    print_shared(s.clone());

    println!("{:?}", s);
    assert!(s.borrow().ends_with(", oh yeah!, oh yeah!"));
}

fn append_owned(mut s: String) {
    s.push_str(", oh yeah!");
    println!("{:?}", s);
}

fn print_owned(s: String) {
    println!("{:?}", s);
}

#[test]
fn rc_with_refcell_1_clone() {
    let s = String::from("a string");

    append_owned(s.clone());
    append_owned(s.clone());
    print_owned(s.clone());

    println!("{:?}", s);
    assert_eq!(s, "a string");
}

fn append_borrowed(s: &mut String) {
    s.push_str(", oh yeah!");
    println!("{:?}", s);
}

fn print_borrowed(s: &String) {
    println!("{:?}", s);
}

#[test]
fn rc_with_refcell_1_ref() {
    let mut s = String::from("a string");

    append_borrowed(&mut s);
    append_borrowed(&mut s);
    print_borrowed(&s);

    println!("{:?}", s);
    assert_eq!(s, "a string, oh yeah!, oh yeah!");
}

fn append_cell(s: RefCell<String>) {
    s.borrow_mut().push_str(", oh yeah!");
    println!("{:?}", s);
}

#[test]
fn rc_with_refcell_1_refcell() {
    let s = RefCell::new(String::from("a string"));
    append_cell(s);
}

#[derive(PartialEq, Debug)]
struct Point {
    x: f64,
    y: f64,
}

#[test]
fn test_box() {
    let box_point = Box::new(Point { x: 0.0, y: 0.0 });
    let unboxed_point: Point = *box_point;
    assert_eq!(unboxed_point, Point { x: 0.0, y: 0.0 });
}

#[test]
fn test_as_ref() {
    let my_string = "Hello, world!".to_string();
    let string_ref: &str = my_string.as_ref();
    let string_ref2: &str = &my_string;
    println!("{string_ref2}");
    assert_eq!(string_ref, string_ref2);
}

#[test]
fn pointer_smart_box_usage() {
    let arr = [0; 1000];
    let arr1 = arr;
    println!("{:?}", arr.len());
    println!("{:?}", arr1.len());

    let arr = Box::new([0; 1000]);
    let arr1 = arr;
    println!("{:?}", arr1.len());
    assert_eq!(arr1.len(), 1000);
}

#[allow(dead_code)]
enum List {
    Cons(i32, Box<List>),
    Nil,
}

#[test]
fn dyn_size_to_fixed_size() {
    let list = List::Cons(1, Box::new(List::Nil));
    assert!(matches!(list, List::Cons(1, _)));
}

trait Draw {
    fn new() -> Self
    where
        Self: Sized;
    fn draw(&self);
}

struct Button {
    id: u32,
}

impl Draw for Button {
    fn new() -> Self {
        Button { id: 0 }
    }

    fn draw(&self) {
        println!("这是屏幕上第{}号按钮", self.id)
    }
}

struct Select {
    id: u32,
}

impl Draw for Select {
    fn new() -> Self {
        Select { id: 0 }
    }

    fn draw(&self) {
        println!("这个选择框贼难用{}", self.id)
    }
}

#[test]
fn dyn_trait() {
    let elems: Vec<Box<dyn Draw>> = vec![Box::new(Button { id: 1 }), Box::new(Select { id: 2 })];
    assert_eq!(Button::new().id, Select::new().id);

    for e in elems {
        e.draw()
    }
}
