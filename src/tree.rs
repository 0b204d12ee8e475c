//! The generic tree of mappings, sequences and scalars that programs are
//! decoded from.
use vstd::prelude::*;

verus! {

/// An already parsed tree value: a mapping keeps its entries in order.
#[derive(Debug, PartialEq)]
pub enum Tree {
    Null,
    Bool(bool),
    Int(isize),
    Str(String),
    Array(Vec<Tree>),
    Object(Vec<(String, Tree)>),
}

/// The value of the first entry of a mapping with the given key.
pub open spec fn field(fs: Seq<(String, Tree)>, key: Seq<char>) -> Option<Tree>
    decreases fs.len(),
{
    if fs.len() == 0 {
        None
    } else if fs[0].0@ == key {
        Some(fs[0].1)
    } else {
        field(fs.subrange(1, fs.len() as int), key)
    }
}

/// Relies on `<str as PartialEq>::eq`: two slices are equal exactly when
/// they hold the same characters.
#[verifier::external_body]
fn str_eq(a: &str, b: &str) -> (r: bool)
    ensures
        r == (a@ == b@),
{
    a == b
}

/// Tells whether the string is the given text.
pub fn is_text(s: &String, text: &str) -> (r: bool)
    ensures
        r == (s@ == text@),
{
    str_eq(s.as_str(), text)
}

/// Looks up the first entry of a mapping with the given key.
pub fn get_field<'a>(fs: &'a Vec<(String, Tree)>, key: &str) -> (r: Option<&'a Tree>)
    ensures
        match r {
            Some(t) => field(fs@, key@) == Some(*t),
            None => field(fs@, key@) is None,
        },
{
    let mut i: usize = 0;
    assert(fs@.subrange(0, fs@.len() as int) =~= fs@);
    while i < fs.len()
        invariant
            i <= fs@.len(),
            field(fs@, key@) == field(fs@.subrange(i as int, fs@.len() as int), key@),
        decreases fs.len() - i,
    {
        let ghost rest = fs@.subrange(i as int, fs@.len() as int);
        assert(rest.subrange(1, rest.len() as int) =~= fs@.subrange(i + 1, fs@.len() as int));
        assert(rest[0] == fs@[i as int]);
        if is_text(&fs[i].0, key) {
            return Some(&fs[i].1);
        }
        i = i + 1;
    }
    assert(fs@.subrange(i as int, fs@.len() as int).len() == 0);
    None
}

} // verus!
