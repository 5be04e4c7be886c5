use glommio::macros::args::{is_bare_variant, key, parse, Arg, Expr, ExprShape, Key, PathShape};
use glommio::macros::entry::{expand, Refusal, Signature};

const PLAIN: Signature = Signature {
    is_async: true,
    is_unsafe: false,
    is_const: false,
    has_abi: false,
    is_generic: false,
    has_where: false,
    takes_arguments: false,
};

fn path(leading_colon: bool, segments: &[&str]) -> PathShape {
    PathShape { leading_colon, segments: segments.iter().map(|s| s.to_string()).collect() }
}

fn placement(shape: ExprShape, text: &str) -> Arg {
    Arg::Placement(Expr { shape, text: text.to_string() })
}

fn fixed(cpu: usize) -> Arg {
    placement(ExprShape::Call(path(false, &["Fixed"])), &format!("Fixed({cpu})"))
}

fn unbound() -> String {
    "Unbound".to_string()
}

#[derive(Debug, PartialEq)]
enum Placement {
    Unbound,
    Fixed(usize),
}

/// What the expanded function hands to the builder and runs.
fn run<T>(
    args: impl Fn() -> Vec<Arg>,
    body: impl std::future::Future<Output = T>,
) -> (Placement, Option<String>, T) {
    let expansion = expand(args(), &PLAIN, &unbound(), false).unwrap();
    let name = parse(args(), &unbound()).name;
    let placement = match expansion.placement.as_str() {
        "::glommio::Placement::Unbound" => Placement::Unbound,
        "::glommio::Placement::Fixed(1)" => Placement::Fixed(1),
        "::glommio::Placement::Fixed(3)" => Placement::Fixed(3),
        other => panic!("{other}"),
    };
    (placement, name, futures_lite::future::block_on(body))
}

#[test]
fn main_runs_the_body_and_defaults_to_unbound() {
    let (placement, _, output) = run(Vec::new, async { 7 });
    assert_eq!(output, 7);
    assert_eq!(placement, Placement::Unbound);
}

#[test]
fn placement_argument_reaches_the_builder() {
    let (placement, name, ()) = run(|| vec![fixed(3)], async {});
    assert_eq!(placement, Placement::Fixed(3));
    assert_eq!(name, None);
}

#[test]
fn second_placement_reaches_the_builder() {
    let (placement, name, ()) = run(|| vec![fixed(1)], async {});
    assert_eq!(placement, Placement::Fixed(1));
    assert_eq!(name, None);
}

#[test]
fn main_attribute_takes_the_crate_override_too() {
    let expansion =
        expand(vec![Arg::Crate("renamed".to_string()), fixed(0)], &PLAIN, &unbound(), false).unwrap();
    assert_eq!(expansion.krate, "renamed");
    assert_eq!(expansion.placement, "renamed::Placement::Fixed(0)");
    assert!(!expansion.test_attr);
}

#[test]
fn a_test_is_marked_as_one() {
    let expansion = expand(Vec::new(), &PLAIN, &unbound(), true).unwrap();
    assert!(expansion.test_attr);
    assert_eq!(expansion.krate, "::glommio");
}

#[test]
fn a_placement_that_is_not_a_bare_variant_is_emitted_as_written() {
    let written = |shape, text: &str| parse(vec![placement(shape, text)], &unbound()).placement;
    assert_eq!(written(ExprShape::Call(path(false, &["chosen"])), "chosen()"), "chosen()");
    assert_eq!(
        written(ExprShape::Path(path(true, &["glommio", "Placement", "Unbound"])), "::glommio::Placement::Unbound"),
        "::glommio::Placement::Unbound"
    );
    assert_eq!(written(ExprShape::Other, "if a { b } else { c }"), "if a { b } else { c }");
    assert_eq!(written(ExprShape::Path(path(false, &["Unbound"])), "Unbound"), "::glommio::Placement::Unbound");

    assert!(is_bare_variant(&ExprShape::Call(path(false, &["Fenced"]))));
    assert!(!is_bare_variant(&ExprShape::Path(path(true, &["Fixed"]))));
    assert!(!is_bare_variant(&ExprShape::Path(path(false, &["Placement", "Fixed"]))));
    assert!(!is_bare_variant(&ExprShape::Path(path(false, &["fixed"]))));
}

#[test]
fn of_an_argument_given_twice_the_last_counts() {
    let args = parse(
        vec![fixed(1), Arg::Crate("a".to_string()), fixed(2), Arg::Crate("b".to_string())],
        &unbound(),
    );
    assert_eq!((args.krate.as_str(), args.placement.as_str(), args.name), ("b", "b::Placement::Fixed(2)", None));
}

#[test]
fn keys_are_told_apart() {
    assert_eq!(key(true, &String::new()), Ok(Key::Crate));
    assert_eq!(key(false, &"placement".to_string()), Ok(Key::Placement));
    assert_eq!(key(false, &"name".to_string()), Ok(Key::Name));
    assert_eq!(
        key(false, &"cpus".to_string()),
        Err("unknown argument `cpus`; expected `placement` or `crate`".to_string())
    );
}

#[test]
fn what_cannot_be_an_entry_point_is_refused() {
    let refused = |signature: Signature| expand(Vec::new(), &signature, &unbound(), false).unwrap_err();
    for (signature, refusal, begins) in [
        (Signature { is_async: false, ..PLAIN }, Refusal::NotAsync, "expected an `async fn`"),
        (Signature { is_unsafe: true, ..PLAIN }, Refusal::Unsafe, "expected a safe `async fn`"),
        (Signature { is_const: true, ..PLAIN }, Refusal::Const, "expected a non-`const` `async fn`"),
        (Signature { has_abi: true, ..PLAIN }, Refusal::Abi, "expected a plain `async fn`"),
        (Signature { is_generic: true, ..PLAIN }, Refusal::Generic, "expected a non-generic `async fn`"),
        (Signature { has_where: true, ..PLAIN }, Refusal::Where, "expected a `where`-clause-free `async fn`"),
        (
            Signature { takes_arguments: true, ..PLAIN },
            Refusal::Arguments,
            "expected a function taking no arguments; the executor has nothing to pass one",
        ),
    ] {
        assert_eq!(refused(signature), refusal);
        assert!(refusal.message().starts_with(begins), "{}", refusal.message());
    }
    // The first thing that is wrong is the one that is told.
    assert_eq!(refused(Signature { is_async: false, is_generic: true, ..PLAIN }), Refusal::NotAsync);
    assert_eq!(refused(Signature { is_generic: true, takes_arguments: true, ..PLAIN }), Refusal::Generic);

    let named = expand(vec![Arg::Name("worker".to_string())], &PLAIN, &unbound(), false).unwrap_err();
    assert_eq!(named, Refusal::Named);
    assert!(named.message().starts_with("`name` cannot be honoured here"));
}
