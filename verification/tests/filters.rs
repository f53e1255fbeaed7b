use cooklang_reports::filters::{
    camelize_filter, dasherize_filter, humanize_filter, quantity_filter, titleize_filter,
    underscore_filter, upcase_first_filter,
};

#[test]
fn test_camelize() {
    assert_eq!(camelize_filter("hello_world"), "HelloWorld");
    assert_eq!(camelize_filter("hello-world"), "HelloWorld");
    assert_eq!(camelize_filter("hello world"), "HelloWorld");
    assert_eq!(camelize_filter("hello_world_foo"), "HelloWorldFoo");
    assert_eq!(camelize_filter(""), "");
}

#[test]
fn test_underscore() {
    assert_eq!(underscore_filter("HelloWorld"), "hello_world");
    assert_eq!(underscore_filter("hello-world"), "hello_world");
    assert_eq!(underscore_filter("hello world"), "hello_world");
    assert_eq!(underscore_filter("HelloWorldFoo"), "hello_world_foo");
    assert_eq!(underscore_filter(""), "");
}

#[test]
fn test_dasherize() {
    assert_eq!(dasherize_filter("HelloWorld"), "hello-world");
    assert_eq!(dasherize_filter("hello_world"), "hello-world");
    assert_eq!(dasherize_filter("hello world"), "hello-world");
    assert_eq!(dasherize_filter("HelloWorldFoo"), "hello-world-foo");
    assert_eq!(dasherize_filter(""), "");
}

#[test]
fn test_humanize() {
    assert_eq!(humanize_filter("hello_world"), "Hello world");
    assert_eq!(humanize_filter("hello-world"), "Hello world");
    assert_eq!(humanize_filter("hello_world_foo"), "Hello world foo");
    assert_eq!(humanize_filter(""), "");
}

#[test]
fn test_titleize() {
    assert_eq!(titleize_filter("hello_world"), "Hello World");
    assert_eq!(titleize_filter("hello-world"), "Hello World");
    assert_eq!(titleize_filter("hello world"), "Hello World");
    assert_eq!(titleize_filter("hello_world_foo"), "Hello World Foo");
    assert_eq!(titleize_filter(""), "");
}

#[test]
fn test_quantity_spacing() {
    assert_eq!(quantity_filter("42.5g"), "42.5 g");
    assert_eq!(quantity_filter("  1/2tsp "), "1/2 tsp");
    assert_eq!(quantity_filter("100 ml"), "100 ml");
    assert_eq!(quantity_filter("42"), "42");
    assert_eq!(quantity_filter("½tsp"), "½ tsp");
}

#[test]
fn test_upcase_first() {
    assert_eq!(upcase_first_filter("hello"), "Hello");
    assert_eq!(upcase_first_filter("Hello"), "Hello");
    assert_eq!(upcase_first_filter("hello world"), "Hello world");
    assert_eq!(upcase_first_filter(""), "");
}
