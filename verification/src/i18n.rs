//! Filling `%{name}` placeholders of a translated string template.

use vstd::prelude::*;
use crate::text::{chars_vec, push_char};

verus! {

/// Position of the first `}` of `t` at or after `i`, or -1.
pub open spec fn close_index(t: Seq<char>, i: int) -> int
    decreases t.len() - i,
{
    if i < 0 || i >= t.len() {
        -1
    } else if t[i] == '}' {
        i
    } else {
        close_index(t, i + 1)
    }
}

/// The value given for placeholder `name`: the first argument of that name.
pub open spec fn lookup(args: Seq<(Seq<char>, Seq<char>)>, name: Seq<char>) -> Option<Seq<char>>
    decreases args.len(),
{
    if args.len() == 0 {
        None
    } else if args[0].0 == name {
        Some(args[0].1)
    } else {
        lookup(args.drop_first(), name)
    }
}

/// `t` with each `%{name}` whose name has a value replaced by that value,
/// read left to right; other text, unknown placeholders included, is kept.
pub open spec fn interpolate_spec(t: Seq<char>, args: Seq<(Seq<char>, Seq<char>)>) -> Seq<char>
    decreases t.len(),
{
    if t.len() == 0 {
        Seq::empty()
    } else if t.len() >= 2 && t[0] == '%' && t[1] == '{' && close_index(t, 2) >= 0 && lookup(
        args,
        t.subrange(2, close_index(t, 2)),
    ) is Some {
        proof {
            lemma_close_index(t, 2);
        }
        lookup(args, t.subrange(2, close_index(t, 2)))->0 + interpolate_spec(
            t.skip(close_index(t, 2) + 1),
            args,
        )
    } else {
        seq![t[0]] + interpolate_spec(t.drop_first(), args)
    }
}

/// Placeholder names paired with their values, position by position.
pub open spec fn args_view(names: Seq<&str>, values: Seq<String>) -> Seq<(Seq<char>, Seq<char>)> {
    Seq::new(names.len(), |k: int| (names[k]@, values[k]@))
}

/// `close_index` finds a `}` at or after `i`, and no earlier one.
pub proof fn lemma_close_index(t: Seq<char>, i: int)
    requires
        0 <= i,
    ensures
        close_index(t, i) == -1 || (i <= close_index(t, i) < t.len() && t[close_index(t, i)]
            == '}'),
        forall|j: int| i <= j < t.len() && t[j] == '}' ==> close_index(t, i) != -1 && close_index(
            t,
            i,
        ) <= j,
    decreases t.len() - i,
{
    if i < t.len() && t[i] != '}' {
        lemma_close_index(t, i + 1);
    }
}

/// Searching a suffix finds the same `}`, shifted.
pub proof fn lemma_close_index_shift(t: Seq<char>, i: int, k: int)
    requires
        0 <= k <= i,
        k <= t.len(),
    ensures
        close_index(t.skip(k), i - k) == if close_index(t, i) < 0 {
            -1
        } else {
            close_index(t, i) - k
        },
    decreases t.len() - i,
{
    if 0 <= i < t.len() {
        assert(t.skip(k)[i - k] == t[i]);
    }
    if i < t.len() && t[i] != '}' {
        lemma_close_index_shift(t, i + 1, k);
    }
}

/// The first `}` of `t` at or after `from`.
fn find_close(t: &Vec<char>, from: usize) -> (r: Option<usize>)
    ensures
        match r {
            Some(j) => j as int == close_index(t@, from as int),
            None => close_index(t@, from as int) == -1,
        },
{
    let n = t.len();
    let mut j = from;
    if j >= n {
        return None;
    }
    while j < n
        invariant
            n == t@.len(),
            from <= j <= n,
            close_index(t@, from as int) == close_index(t@, j as int),
        decreases n - j,
    {
        if t[j] == '}' {
            return Some(j);
        }
        j = j + 1;
    }
    None
}

/// Position of the first argument called `name`.
fn find_value(names: &[&str], values: &[String], name: &Vec<char>) -> (r: Option<usize>)
    requires
        names@.len() == values@.len(),
    ensures
        match r {
            Some(k) => k < names@.len() && lookup(args_view(names@, values@), name@) == Some(
                values@[k as int]@,
            ),
            None => lookup(args_view(names@, values@), name@) is None,
        },
{
    let n = names.len();
    let mut k: usize = 0;
    assert(args_view(names@, values@).skip(0) =~= args_view(names@, values@));
    while k < n
        invariant
            n == names@.len(),
            n == values@.len(),
            k <= n,
            lookup(args_view(names@, values@), name@) == lookup(
                args_view(names@, values@).skip(k as int),
                name@,
            ),
        decreases n - k,
    {
        let ghost rest = args_view(names@, values@).skip(k as int);
        assert(rest.drop_first() =~= args_view(names@, values@).skip(k + 1));
        assert(rest[0] == (names@[k as int]@, values@[k as int]@));
        let cand = chars_vec(names[k]);
        if crate::text::chars_eq(cand.as_slice(), name.as_slice()) {
            return Some(k);
        }
        k = k + 1;
    }
    assert(args_view(names@, values@).skip(n as int) =~= Seq::<(Seq<char>, Seq<char>)>::empty());
    None
}

/// Fills the `%{name}` placeholders of `template` with the values of the
/// same position in `values`.
pub fn interpolate(template: &str, names: &[&str], values: &[String]) -> (s: String)
    requires
        names@.len() == values@.len(),
    ensures
        s@ == interpolate_spec(template@, args_view(names@, values@)),
{
    let ghost args = args_view(names@, values@);
    let t = chars_vec(template);
    let n = t.len();
    let mut out = String::new();
    let mut i: usize = 0;
    assert(t@.skip(0) =~= t@);
    while i < n
        invariant
            n == t@.len(),
            t@ == template@,
            i <= n,
            names@.len() == values@.len(),
            args == args_view(names@, values@),
            interpolate_spec(t@, args) == out@ + interpolate_spec(t@.skip(i as int), args),
        decreases n - i,
    {
        let ghost rest = t@.skip(i as int);
        let mut replaced = false;
        if i + 1 < n && t[i] == '%' && t[i + 1] == '{' {
            proof {
                lemma_close_index_shift(t@, i + 2, i as int);
            }
            if let Some(c) = find_close(&t, i + 2) {
                proof {
                    lemma_close_index(t@, i + 2);
                }
                let name_chars = crate::text::slice_chars(t.as_slice(), i + 2, c);
                assert(name_chars@ =~= rest.subrange(2, close_index(rest, 2)));
                if let Some(k) = find_value(names, values, &name_chars) {
                    out.append(values[k].as_str());
                    assert(rest.skip(close_index(rest, 2) + 1) =~= t@.skip(c + 1));
                    i = c + 1;
                    replaced = true;
                }
            }
        }
        if !replaced {
            push_char(&mut out, t[i]);
            assert(rest.drop_first() =~= t@.skip(i + 1));
            i = i + 1;
        }
    }
    out
}

} // verus!
