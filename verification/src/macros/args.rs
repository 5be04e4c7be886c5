//! Attribute arguments, shared by `main` and `test`.
//!
//! Three keys, deliberately: `placement`, `name` and `crate`. Anything the
//! builder does better stays on the builder.

use vstd::prelude::*;
use vstd::string::StringExecFns;

verus! {

/// A path.
#[derive(Debug)]
pub struct PathShape {
    /// It begins with `::`.
    pub leading_colon: bool,
    /// The identifiers it is made of.
    pub segments: Vec<String>,
}

/// An expression, as far as it matters here.
#[derive(Debug)]
pub enum ExprShape {
    /// A path.
    Path(PathShape),
    /// A call of a path.
    Call(PathShape),
    /// Anything else.
    Other,
}

/// An expression and how it is written.
#[derive(Debug)]
pub struct Expr {
    /// What it is.
    pub shape: ExprShape,
    /// Its text.
    pub text: String,
}

/// The variants of a placement a caller may name without qualifying them.
pub open spec fn is_variant(name: Seq<char>) -> bool {
    name == "Unbound"@ || name == "Fenced"@ || name == "Fixed"@
}

impl PathShape {
    /// A variant's name alone.
    pub open spec fn is_bare(&self) -> bool {
        !self.leading_colon && self.segments@.len() == 1 && is_variant(self.segments@[0]@)
    }
}

impl ExprShape {
    /// A variant's name alone, or a call of that.
    pub open spec fn is_bare(&self) -> bool {
        match self {
            ExprShape::Path(path) => path.is_bare(),
            ExprShape::Call(path) => path.is_bare(),
            ExprShape::Other => false,
        }
    }
}

/// Whether an expression names a variant, bare, and so wants `Placement::` in
/// front of it.
///
/// Anything else is emitted as written, so a call, a path through another
/// module, or a local binding all work. The shorthand is only a shorthand.
pub fn is_bare_variant(expr: &ExprShape) -> (bare: bool)
    ensures
        bare == expr.is_bare(),
{
    let path: &PathShape = match expr {
        ExprShape::Path(path) => path,
        ExprShape::Call(path) => path,
        ExprShape::Other => {
            return false;
        },
    };
    if path.leading_colon || path.segments.len() != 1 {
        return false;
    }
    path.segments[0] == "Unbound".to_string() || path.segments[0] == "Fenced".to_string() || path.segments[0]
        == "Fixed".to_string()
}

/// What an argument is for.
#[derive(Debug, Clone, Copy, PartialEq, Eq, Structural)]
pub enum Key {
    /// Where the executor runs.
    Placement,
    /// What its thread is called.
    Name,
    /// What the runtime crate is called.
    Crate,
}

/// An argument.
#[derive(Debug)]
pub enum Arg {
    /// Where the executor runs.
    Placement(Expr),
    /// What its thread is called.
    Name(String),
    /// What the runtime crate is called.
    Crate(String),
}

/// What the argument of this key is for. `crate` is a keyword and not an
/// identifier.
pub fn key(is_crate_keyword: bool, ident: &String) -> (key: Result<Key, String>)
    ensures
        match key {
            Ok(Key::Crate) => is_crate_keyword,
            Ok(Key::Placement) => !is_crate_keyword && ident@ == "placement"@,
            Ok(Key::Name) => !is_crate_keyword && ident@ == "name"@ && ident@ != "placement"@,
            Err(message) => {
                &&& !is_crate_keyword
                &&& ident@ != "placement"@
                &&& ident@ != "name"@
                &&& message@ == "unknown argument `"@ + ident@ + "`; expected `placement` or `crate`"@
            },
        },
{
    if is_crate_keyword {
        return Ok(Key::Crate);
    }
    if *ident == "placement".to_string() {
        return Ok(Key::Placement);
    }
    if *ident == "name".to_string() {
        return Ok(Key::Name);
    }
    let mut message: String = "unknown argument `".to_string();
    message.append(ident.as_str());
    message.append("`; expected `placement` or `crate`");
    Err(message)
}

/// The last placement given.
pub open spec fn last_placement(args: Seq<Arg>) -> Option<Expr>
    decreases args.len(),
{
    if args.len() == 0 {
        None
    } else {
        match args.last() {
            Arg::Placement(expr) => Some(expr),
            _ => last_placement(args.drop_last()),
        }
    }
}

/// The last name given.
pub open spec fn last_name(args: Seq<Arg>) -> Option<String>
    decreases args.len(),
{
    if args.len() == 0 {
        None
    } else {
        match args.last() {
            Arg::Name(name) => Some(name),
            _ => last_name(args.drop_last()),
        }
    }
}

/// The last crate given.
pub open spec fn last_crate(args: Seq<Arg>) -> Option<String>
    decreases args.len(),
{
    if args.len() == 0 {
        None
    } else {
        match args.last() {
            Arg::Crate(name) => Some(name),
            _ => last_crate(args.drop_last()),
        }
    }
}

/// What the arguments ask for.
#[derive(Debug)]
pub struct Args {
    /// Fully qualified, e.g. `::glommio::Placement::Fixed(0)`.
    pub placement: String,
    /// What the executor's thread is called.
    pub name: Option<String>,
    /// What the runtime crate is called.
    pub krate: String,
}

/// What the runtime crate is called.
pub open spec fn crate_of(args: Seq<Arg>) -> Seq<char> {
    match last_crate(args) {
        Some(krate) => krate@,
        None => "::glommio"@,
    }
}

/// Where the executor runs. A bare variant name is qualified for the caller;
/// anything else is theirs and goes through untouched, so a computed placement
/// needs no escape from the attribute.
pub open spec fn placement_of(args: Seq<Arg>, default_placement: Seq<char>) -> Seq<char> {
    match last_placement(args) {
        Some(expr) => if expr.shape.is_bare() {
            crate_of(args) + "::Placement::"@ + expr.text@
        } else {
            expr.text@
        },
        None => crate_of(args) + "::Placement::"@ + default_placement,
    }
}

/// Gathers the arguments, defaulting the placement to `default_placement` when
/// the caller did not name one. Of an argument given more than once the last
/// one counts.
pub fn parse(args: Vec<Arg>, default_placement: &String) -> (parsed: Args)
    ensures
        parsed.krate@ == crate_of(args@),
        parsed.placement@ == placement_of(args@, default_placement@),
        parsed.name == last_name(args@),
{
    let ghost all = args@;
    let mut placement: Option<Expr> = None;
    let mut name: Option<String> = None;
    let mut krate: Option<String> = None;
    assert(all.take(0) =~= Seq::<Arg>::empty());
    for arg in it: args
        invariant
            it.seq() == all,
            placement == last_placement(all.take(it.index())),
            name == last_name(all.take(it.index())),
            krate == last_crate(all.take(it.index())),
    {
        proof {
            let more = all.take(it.index() + 1);
            assert(more.drop_last() =~= all.take(it.index()));
            assert(more.last() == arg);
        }
        match arg {
            Arg::Placement(value) => {
                placement = Some(value);
            },
            Arg::Name(value) => {
                name = Some(value);
            },
            Arg::Crate(value) => {
                krate = Some(value);
            },
        }
    }
    assert(all.take(all.len() as int) =~= all);
    let krate: String = match krate {
        Some(krate) => krate,
        None => "::glommio".to_string(),
    };
    let placement: String = match placement {
        Some(expr) => {
            if is_bare_variant(&expr.shape) {
                qualified(&krate, &expr.text)
            } else {
                expr.text
            }
        },
        None => qualified(&krate, default_placement),
    };
    Args { placement, name, krate }
}

fn qualified(krate: &String, variant: &String) -> (path: String)
    ensures
        path@ == krate@ + "::Placement::"@ + variant@,
{
    let mut path: String = krate.clone();
    path.append("::Placement::");
    path.append(variant.as_str());
    path
}

/// A placement that is not a bare variant is emitted as written, whatever the
/// crate is called; a bare one, or none, goes under the crate's own name.
pub proof fn law_only_bare_variants_are_qualified(args: Seq<Arg>, default_placement: Seq<char>)
    ensures
        last_placement(args) matches Some(expr) && !expr.shape.is_bare() ==> placement_of(args, default_placement)
            == last_placement(args)->0.text@,
        last_placement(args) is None || last_placement(args)->0.shape.is_bare() ==> {
            let placement = placement_of(args, default_placement);
            placement.len() >= crate_of(args).len() && placement.take(crate_of(args).len() as int) == crate_of(args)
        },
{
    let krate = crate_of(args);
    if last_placement(args) is None {
        assert((krate + "::Placement::"@ + default_placement).take(krate.len() as int) =~= krate);
    } else {
        let text = last_placement(args)->0.text@;
        assert((krate + "::Placement::"@ + text).take(krate.len() as int) =~= krate);
    }
}

/// Of an argument given more than once the last one counts: a later list of
/// arguments has its way where it says anything, and where it does not, an
/// earlier one has. What is given for one key has no bearing on another.
pub proof fn law_the_last_one_counts(a: Seq<Arg>, b: Seq<Arg>, expr: Expr, text: String)
    ensures
        last_placement(a + b) == if last_placement(b) is Some {
            last_placement(b)
        } else {
            last_placement(a)
        },
        last_name(a + b) == if last_name(b) is Some {
            last_name(b)
        } else {
            last_name(a)
        },
        last_crate(a + b) == if last_crate(b) is Some {
            last_crate(b)
        } else {
            last_crate(a)
        },
        last_placement(a.push(Arg::Placement(expr))) == Some(expr),
        last_name(a.push(Arg::Placement(expr))) == last_name(a),
        last_crate(a.push(Arg::Placement(expr))) == last_crate(a),
        last_name(a.push(Arg::Name(text))) == Some(text),
        last_placement(a.push(Arg::Name(text))) == last_placement(a),
        last_crate(a.push(Arg::Name(text))) == last_crate(a),
        last_crate(a.push(Arg::Crate(text))) == Some(text),
        last_placement(a.push(Arg::Crate(text))) == last_placement(a),
        last_name(a.push(Arg::Crate(text))) == last_name(a),
        last_placement(Seq::empty()) is None,
        last_name(Seq::empty()) is None,
        last_crate(Seq::empty()) is None,
    decreases b.len(),
{
    assert(a.push(Arg::Placement(expr)).drop_last() =~= a);
    assert(a.push(Arg::Name(text)).drop_last() =~= a);
    assert(a.push(Arg::Crate(text)).drop_last() =~= a);
    if b.len() == 0 {
        assert(a + b =~= a);
    } else {
        law_the_last_one_counts(a, b.drop_last(), expr, text);
        assert((a + b).drop_last() =~= a + b.drop_last());
        assert((a + b).last() == b.last());
    }
}

/// A placement is qualified where it is one of the three variants by its name
/// alone, or a call of one, and nowhere else.
pub proof fn law_what_is_bare(path: PathShape)
    ensures
        is_variant(seq!['U', 'n', 'b', 'o', 'u', 'n', 'd']),
        is_variant(seq!['F', 'e', 'n', 'c', 'e', 'd']),
        is_variant(seq!['F', 'i', 'x', 'e', 'd']),
        forall|name: Seq<char>| #[trigger]
            is_variant(name) ==> name == seq!['U', 'n', 'b', 'o', 'u', 'n', 'd'] || name == seq![
                'F',
                'e',
                'n',
                'c',
                'e',
                'd',
            ] || name == seq!['F', 'i', 'x', 'e', 'd'],
        ExprShape::Path(path).is_bare() == ExprShape::Call(path).is_bare(),
        ExprShape::Path(path).is_bare() ==> !path.leading_colon && path.segments@.len() == 1,
        !path.leading_colon && path.segments@.len() == 1 ==> (ExprShape::Path(path).is_bare() <==> is_variant(
            path.segments@[0]@,
        )),
        !ExprShape::Other.is_bare(),
{
    reveal_strlit("Unbound");
    reveal_strlit("Fenced");
    reveal_strlit("Fixed");
    assert("Unbound"@ =~= seq!['U', 'n', 'b', 'o', 'u', 'n', 'd']);
    assert("Fenced"@ =~= seq!['F', 'e', 'n', 'c', 'e', 'd']);
    assert("Fixed"@ =~= seq!['F', 'i', 'x', 'e', 'd']);
}

/// A placement that is qualified ends as it was written, and stands in the
/// crate that was asked for, or else in the one the attribute comes with.
pub proof fn law_what_is_qualified_ends_as_written(args: Seq<Arg>, default_placement: Seq<char>)
    ensures
        ({
            let placement = placement_of(args, default_placement);
            let written = match last_placement(args) {
                Some(expr) => expr.text@,
                None => default_placement,
            };
            &&& placement.len() >= written.len()
            &&& placement.skip(placement.len() - written.len()) == written
            &&& last_placement(args) is None ==> placement.len() == crate_of(args).len() + 13 + written.len()
            &&& last_crate(args) matches Some(krate) ==> crate_of(args) == krate@
            &&& last_crate(args) is None ==> crate_of(args) == seq![':', ':', 'g', 'l', 'o', 'm', 'm', 'i', 'o']
        }),
{
    reveal_strlit("::glommio");
    reveal_strlit("::Placement::");
    assert("::glommio"@ =~= seq![':', ':', 'g', 'l', 'o', 'm', 'm', 'i', 'o']);
    let placement = placement_of(args, default_placement);
    let written = match last_placement(args) {
        Some(expr) => expr.text@,
        None => default_placement,
    };
    assert(placement.skip(placement.len() - written.len()) =~= written);
}

} // verus!
