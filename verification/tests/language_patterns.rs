//! Patterns of the language that the library is written in.

use std::collections::HashMap;

fn something(cmd: String) -> Result<String, String> {
    let mut methods: HashMap<&str, String> = HashMap::new();
    methods.insert("sse", "call_sse".to_string());
    methods.insert("async", "call_async".to_string());
    methods.insert("sync", "call_sync".to_string());
    match cmd.as_str() {
        "exit" => Err("Force exit".to_string()),
        method => {
            return if let Some(call_invoke) = methods.get(method) {
                Ok(call_invoke.to_string())
            } else {
                Err("Invalid method".to_string())
            }
        }
    }
}

#[test]
fn loop_match() {
    let result = something("sync".to_string());
    assert_eq!(result, Ok("call_sync".to_string()));
    let result = something("exit".to_string());
    assert_eq!(result, Err("Force exit".to_string()));
    let result = something("xxx".to_string());
    assert_eq!(result, Err("Invalid method".to_string()));
}

#[test]
fn test_match_pattern() {
    let x = Some(5);
    let y = 10;
    match x {
        Some(50) => println!("Got 50"),
        Some(y) => println!("Matched, y = {y}"),
        _ => println!("Default case, x = {x:?}"),
    }
    println!("at the end: x = {x:?}, y = {y}");
}

#[test]
fn test_multi_pattern() {
    let x = 1;
    match x {
        1 | 2 => println!("one or two"),
        3 => println!("three"),
        _ => println!("anything"),
    }
}

#[test]
fn test_section_pattern() {
    let x = 5;
    match x {
        1..=5 => println!("one through five"),
        _ => println!("something else"),
    }

    let ch = 'b';
    match ch {
        'a'..='j' => println!("early ASCII letter"),
        'k'..='z' => println!("late ASCII letter"),
        _ => println!("something else"),
    }
}

struct Point {
    x: i32,
    y: i32,
}

#[test]
fn test_deconstruct() {
    let p = Point { x: 0, y: 7 };
    let Point { x: a, y: b } = p;
    assert_eq!(0, a);
    assert_eq!(7, b);

    let p = Point { x: 0, y: 7 };
    match p {
        Point { x, y: 0 } => println!("On the x axis at {x}"),
        Point { x: 0, y } => println!("On the y axis at {y}"),
        Point { x, y } => {
            println!("On neither axis: ({x}, {y})");
        }
    }
}

#[allow(dead_code)]
enum Color {
    Rgb(i32, i32, i32),
    Hsv(i32, i32, i32),
}

#[allow(dead_code)]
enum Message {
    Quit,
    Move { x: i32, y: i32 },
    Write(String),
    ChangeColor(Color),
}

#[test]
fn test_nested_deconstruct() {
    let msg = Message::ChangeColor(Color::Hsv(0, 160, 255));
    match msg {
        Message::ChangeColor(Color::Rgb(r, g, b)) => {
            println!("Change color to red {r}, green {g}, and blue {b}");
        }
        Message::ChangeColor(Color::Hsv(h, s, v)) => {
            println!("Change color to hue {h}, saturation {s}, value {v}")
        }
        _ => (),
    }
}
