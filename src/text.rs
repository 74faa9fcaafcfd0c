use vstd::prelude::*;
use vstd::std_specs::iter::IteratorSpec;
use vstd::string::StrSliceExecFns;

verus! {

broadcast use vstd::string::axiom_spec_iter, vstd::string::next_postcondition;

/// Relies on String::push: appends one character at the end.
#[verifier::external_body]
fn push_char(s: &mut String, c: char)
    ensures
        final(s)@ == old(s)@.push(c),
{
    s.push(c);
}

/// The characters of `s`, in order.
pub fn chars_of(s: &str) -> (r: Vec<char>)
    ensures
        r@ == s@,
{
    let mut it = s.chars();
    let mut out: Vec<char> = Vec::new();
    loop
        invariant
            out@ + it.remaining() == s@,
            it.decrease() is Some,
        ensures
            out@ == s@,
        decreases it.decrease()->0,
    {
        match it.next() {
            Some(c) => {
                proof {
                    assert(out@.push(c) + it.remaining() =~= s@);
                }
                out.push(c);
            },
            None => {
                proof {
                    assert(out@ =~= s@);
                }
                break;
            },
        }
    }
    out
}

/// `k` occurs in `s` starting at position `i`.
pub open spec fn occurs_at(s: Seq<char>, k: Seq<char>, i: int) -> bool {
    0 <= i && i + k.len() <= s.len() && s.subrange(i, i + k.len()) == k
}

/// `k` is a contiguous substring of `s` (always true of the empty `k`).
pub open spec fn contains(s: Seq<char>, k: Seq<char>) -> bool {
    exists|i: int| occurs_at(s, k, i)
}

fn occurs_at_exec(s: &Vec<char>, k: &Vec<char>, i: usize) -> (r: bool)
    requires
        i + k@.len() <= s@.len(),
    ensures
        r == occurs_at(s@, k@, i as int),
{
    let n = s.len();
    let mut j: usize = 0;
    while j < k.len()
        invariant
            n == s@.len(),
            j <= k@.len(),
            i + k@.len() <= s@.len(),
            forall|t: int| 0 <= t < j ==> s@[i + t] == k@[t],
        decreases k@.len() - j,
    {
        if s[i + j] != k[j] {
            proof {
                assert(s@.subrange(i as int, i + k@.len())[j as int] != k@[j as int]);
            }
            return false;
        }
        j = j + 1;
    }
    proof {
        assert(s@.subrange(i as int, i + k@.len()) =~= k@);
    }
    true
}

/// Whether `k` is a substring of `s`.
pub fn contains_exec(s: &Vec<char>, k: &Vec<char>) -> (r: bool)
    ensures
        r == contains(s@, k@),
{
    if k.len() > s.len() {
        return false;
    }
    let last = s.len() - k.len();
    let mut i: usize = 0;
    loop
        invariant
            i <= last,
            last + k@.len() == s@.len(),
            forall|t: int| 0 <= t < i ==> !occurs_at(s@, k@, t),
        decreases last - i,
    {
        if occurs_at_exec(s, k, i) {
            return true;
        }
        if i == last {
            return false;
        }
        i = i + 1;
    }
}

/// The string made of `cs[from..to]`.
pub fn string_of(cs: &Vec<char>, from: usize, to: usize) -> (r: String)
    requires
        from <= to <= cs@.len(),
    ensures
        r@ == cs@.subrange(from as int, to as int),
{
    let mut out = String::new();
    let mut i = from;
    while i < to
        invariant
            from <= i <= to <= cs@.len(),
            out@ == cs@.subrange(from as int, i as int),
        decreases to - i,
    {
        push_char(&mut out, cs[i]);
        proof {
            assert(cs@.subrange(from as int, i + 1) =~= cs@.subrange(from as int, i as int).push(cs@[i as int]));
        }
        i = i + 1;
    }
    out
}

/// The lines read so far from `t`, and the line being read.
pub open spec fn split_state(t: Seq<char>) -> (Seq<Seq<char>>, Seq<char>)
    decreases t.len(),
{
    if t.len() == 0 {
        (Seq::empty(), Seq::empty())
    } else {
        let (ls, cur) = split_state(t.drop_last());
        if t.last() == '\n' {
            (ls.push(cur), Seq::empty())
        } else {
            (ls, cur.push(t.last()))
        }
    }
}

/// The lines of `t`: the pieces between line breaks, without a last empty piece.
pub open spec fn split_lines(t: Seq<char>) -> Seq<Seq<char>> {
    let (ls, cur) = split_state(t);
    if cur.len() == 0 {
        ls
    } else {
        ls.push(cur)
    }
}

/// Splits `text` into its lines.
pub fn split_lines_exec(text: &str) -> (r: Vec<String>)
    ensures
        r@.map_values(|s: String| s@) == split_lines(text@),
{
    let cs = chars_of(text);
    let mut out: Vec<String> = Vec::new();
    let mut cur = String::new();
    let mut i: usize = 0;
    proof {
        assert(cs@.take(0) =~= Seq::<char>::empty());
        assert(out@.map_values(|s: String| s@) =~= Seq::<Seq<char>>::empty());
    }
    while i < cs.len()
        invariant
            i <= cs@.len(),
            cs@ == text@,
            (out@.map_values(|s: String| s@), cur@) == split_state(cs@.take(i as int)),
        decreases cs@.len() - i,
    {
        proof {
            assert(cs@.take(i + 1).drop_last() =~= cs@.take(i as int));
        }
        if cs[i] == '\n' {
            let ghost prev = out@;
            out.push(cur);
            cur = String::new();
            proof {
                assert(out@.map_values(|s: String| s@) =~= prev.map_values(|s: String| s@).push(
                    out@.last()@,
                ));
            }
        } else {
            push_char(&mut cur, cs[i]);
        }
        i = i + 1;
    }
    proof {
        assert(cs@.take(cs@.len() as int) =~= cs@);
    }
    if cur.as_str().unicode_len() > 0 {
        let ghost prev = out@;
        out.push(cur);
        proof {
            assert(out@.map_values(|s: String| s@) =~= prev.map_values(|s: String| s@).push(
                out@.last()@,
            ));
        }
    }
    out
}

} // verus!
