//! Ownership, lifetimes and generic types of the language that the library
//! is written in.

#[test]
fn test_move() {
    let s1 = String::from("hello");
    let s2 = s1.clone();
    println!("{s1}, world!");
    println!("{s2}, world!");

    let x = 5;
    let y = x;
    println!("x = {x}, y = {y}");
}

#[test]
fn test_macro_move() {
    let str = String::from("hello");
    let func = || println!("str: {str}");
    func();

    let str2 = String::from("hello");
    let func = || println!("str2: {str2}");
    func();
    println!("str2: {str2}")
}

fn calculate_length(s: &String) -> usize {
    s.len()
}

#[test]
fn test_deref() {
    let str = String::from("abc");
    let len = calculate_length(&str);
    println!("len: {len}");
    assert_eq!(len, 3);
}

struct Rectangle {
    width: u32,
    height: u32,
}

impl Rectangle {
    fn area(&self) -> u32 {
        self.width * self.height
    }

    fn area2(self) -> u32 {
        self.width * self.height
    }
}

#[test]
fn self_ref() {
    let rect1 = Rectangle { width: 30, height: 50 };
    let rect2 = &rect1;
    assert_eq!(rect2.area(), 1500);
    println!("The area of the rectangle is {} square pixels.", rect1.area());
    println!("The area of the rectangle is {} square pixels.", rect1.area2());
}

#[test]
fn test_lifecycle() {
    let r: &'static i32;
    {
        let x: &'static i32 = &5;
        r = x;
    }
    println!("r: {r}")
}

fn longest<'a>(x: &'a str, y: &'a str) -> &'a str {
    if x.len() > y.len() {
        x
    } else {
        y
    }
}

#[test]
fn test_lifecycle2() {
    let string1 = String::from("abcd");
    let result;
    {
        let string2 = "xyz";
        result = longest(string1.as_str(), string2);
    }

    println!("The longest string is {result}");
    assert_eq!(result, "abcd");
}

struct ImportantExcerpt<'a> {
    part: &'a str,
}

#[test]
fn test_lc_in_struct() {
    let novel = String::from("Call me Ishmael. Some years ago...");
    let first_sentence = novel.split('.').next().unwrap();
    let i = ImportantExcerpt { part: first_sentence };
    assert_eq!(i.part, "Call me Ishmael");
}

struct Inner {
    a: i32,
}

struct Outer<'a> {
    a: &'a Inner,
}

impl<'a> Outer<'a> {
    fn new(a: &'a Inner) -> Outer<'a> {
        Outer { a }
    }
}

#[test]
fn test_lifetime_specifier() {
    let a = Inner { a: 2 };
    let b = Outer::new(&a);
    assert_eq!(b.a.a, 2);
}

#[derive(Debug)]
struct Point<T> {
    x: T,
    y: T,
}

impl<T> Point<T> {
    fn new(x: T, y: T) -> Point<T> {
        Point { x, y }
    }
}

#[test]
fn test_generic() {
    let xp = &1;
    let yp = &2;
    let point = Point::new(xp, yp);
    let x = 1;
    let y = 2;
    let point2 = Point::new(x, y);
    println!("{point:?}");
    println!("{point2:?}");
    assert_eq!(*point.x + *point.y, point2.x + point2.y);
}

#[derive(Debug)]
struct Human {
    name: String,
    age: u8,
    weight: f32,
}

impl Default for Human {
    fn default() -> Self {
        Human { name: "someone".to_string(), age: 0, weight: 0.0 }
    }
}

#[derive(Debug, Default)]
struct Human2 {
    name: String,
    age: u8,
    weight: f32,
}

#[test]
fn compare_derive_and_impl() {
    let human1 = Human::default();
    let human2 = Human2::default();
    println!("{human1:?}");
    println!("{human2:?}");
    assert_eq!(human1.name, "someone");
    assert_eq!(human2.name, "");
    assert_eq!(human1.age, human2.age);
    assert_eq!(human1.weight, human2.weight);
}

#[test]
fn macros_attribute_tests_test() {
}

#[test]
fn test_in_mod() {
    println!("test test_in_mod()");
}
