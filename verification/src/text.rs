//! Small verified helpers on strings, stated over their character views.

use vstd::prelude::*;

verus! {

/// Returns whether `s` begins with `prefix`.
pub fn has_prefix(s: &str, prefix: &str) -> (b: bool)
    ensures
        b == prefix@.is_prefix_of(s@),
{
    let n = prefix.unicode_len();
    let m = s.unicode_len();
    if n > m {
        return false;
    }
    let mut i: usize = 0;
    while i < n
        invariant
            i <= n,
            n == prefix@.len(),
            m == s@.len(),
            n <= m,
            forall|j: int| 0 <= j < i ==> prefix@[j] == s@[j],
        decreases n - i,
    {
        if prefix.get_char(i) != s.get_char(i) {
            return false;
        }
        i += 1;
    }
    assert(prefix@ =~= s@.subrange(0, prefix@.len() as int));
    true
}

/// Returns whether `a` and `b` hold the same text.
pub fn same_text(a: &str, b: &str) -> (r: bool)
    ensures
        r == (a@ == b@),
{
    let r = a.unicode_len() == b.unicode_len() && has_prefix(a, b);
    proof {
        if a@.len() == b@.len() && b@.is_prefix_of(a@) {
            assert(a@ =~= b@);
        }
    }
    r
}

/// Returns whether `s` begins with the character `c`.
pub fn starts_with_char(s: &str, c: char) -> (b: bool)
    ensures
        b == (s@.len() > 0 && s@[0] == c),
{
    s.unicode_len() > 0 && s.get_char(0) == c
}

/// The characters of `s` after the first `n`, as a new string.
pub fn suffix_after(s: &str, n: usize) -> (r: String)
    requires
        n <= s@.len(),
    ensures
        r@ == s@.skip(n as int),
{
    let len = s.unicode_len();
    let t = s.substring_char(n, len);
    let r = t.to_string();
    proof {
        broadcast use vstd::string::group_string_axioms;
    }
    assert(s@.skip(n as int) =~= s@.subrange(n as int, len as int));
    r
}

/// `s` as a new string.
pub fn to_owned_string(s: &str) -> (r: String)
    ensures
        r@ == s@,
{
    let r = s.to_string();
    proof {
        broadcast use vstd::string::group_string_axioms;
    }
    r
}

/// `s` with each tab replaced by four spaces.
pub open spec fn expand_tabs_spec(s: Seq<char>) -> Seq<char>
    decreases s.len(),
{
    if s.len() == 0 {
        Seq::empty()
    } else if s.last() == '\t' {
        expand_tabs_spec(s.drop_last()) + seq![' ', ' ', ' ', ' ']
    } else {
        expand_tabs_spec(s.drop_last()).push(s.last())
    }
}

/// Appends a character (std's `String::push`, which appends the character
/// to the end of the string).
#[verifier::external_body]
fn push_char(s: &mut String, c: char)
    ensures
        final(s)@ == old(s)@.push(c),
{
    s.push(c);
}

/// Replaces each tab of `line` by four spaces.
pub fn expand_tabs(line: &str) -> (r: String)
    ensures
        r@ == expand_tabs_spec(line@),
{
    proof {
        broadcast use vstd::string::group_string_axioms;
    }
    let mut it = line.chars();
    let mut out = String::new();
    let ghost mut done: Seq<char> = Seq::empty();
    loop
        invariant
            done + vstd::std_specs::iter::IteratorSpec::remaining(&it) == line@,
            out@ == expand_tabs_spec(done),
            vstd::std_specs::iter::IteratorSpec::obeys_prophetic_iter_laws(&it),
        ensures
            out@ == expand_tabs_spec(line@),
        decreases line@.len() - done.len(),
    {
        let ghost rest = vstd::std_specs::iter::IteratorSpec::remaining(&it);
        match it.next() {
            Some(c) => {
                proof {
                    assert(done.push(c) + vstd::std_specs::iter::IteratorSpec::remaining(&it) =~= done + rest);
                    assert(done.push(c).drop_last() =~= done);
                }
                if c == '\t' {
                    push_char(&mut out, ' ');
                    push_char(&mut out, ' ');
                    push_char(&mut out, ' ');
                    push_char(&mut out, ' ');
                    proof {
                        assert(out@ =~= expand_tabs_spec(done) + seq![' ', ' ', ' ', ' ']);
                    }
                } else {
                    push_char(&mut out, c);
                }
                proof {
                    done = done.push(c);
                }
            },
            None => {
                proof {
                    assert(done =~= line@);
                }
                break ;
            },
        }
    }
    out
}

} // verus!
