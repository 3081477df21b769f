//! The string blocks: concatenation, length and find-and-replace.

use vstd::prelude::*;

verus! {

/// The texts among `values`, in order.
pub open spec fn texts_of(values: Seq<Option<Seq<char>>>) -> Seq<Seq<char>>
    decreases values.len(),
{
    if values.len() == 0 {
        seq![]
    } else {
        let rest = texts_of(values.drop_last());
        match values.last() {
            Some(t) => rest.push(t),
            None => rest,
        }
    }
}

/// The texts joined end to end.
pub open spec fn joined(texts: Seq<Seq<char>>) -> Seq<char>
    decreases texts.len(),
{
    if texts.len() == 0 {
        seq![]
    } else {
        joined(texts.drop_last()) + texts.last()
    }
}

/// What the concatenation block outputs for its input values (`None` for an
/// input that holds no text): the texts joined in input order, or nothing
/// when no input holds a text.
pub open spec fn concat_result(values: Seq<Option<Seq<char>>>) -> Option<Seq<char>> {
    if texts_of(values).len() == 0 {
        None
    } else {
        Some(joined(texts_of(values)))
    }
}

/// The views of optional texts.
pub open spec fn text_views(values: Seq<Option<String>>) -> Seq<Option<Seq<char>>> {
    values.map_values(
        |v: Option<String>|
            match v {
                Some(s) => Some(s@),
                None => None,
            },
    )
}

/// The texts of the inputs, joined in input order; `None` when no input
/// holds a text.
pub fn concat_texts(values: &Vec<Option<String>>) -> (r: Option<String>)
    ensures
        r matches Some(s) ==> concat_result(text_views(values@)) == Some(s@),
        r is None ==> concat_result(text_views(values@)) is None,
{
    let ghost views = text_views(values@);
    let mut acc = String::new();
    let mut any = false;
    let mut i: usize = 0;
    while i < values.len()
        invariant
            i <= values.len(),
            views == text_views(values@),
            any == (texts_of(views.subrange(0, i as int)).len() > 0),
            acc@ == joined(texts_of(views.subrange(0, i as int))),
        decreases values.len() - i,
    {
        assert(views.subrange(0, i + 1).drop_last() =~= views.subrange(0, i as int));
        let ghost prefix = texts_of(views.subrange(0, i as int));
        assert(views.subrange(0, i + 1).last() == views[i as int]);
        match &values[i] {
            Some(s) => {
                assert(texts_of(views.subrange(0, i + 1)) == prefix.push(s@));
                assert(prefix.push(s@).drop_last() =~= prefix);
                acc.append(s.as_str());
                any = true;
            },
            None => {
                assert(texts_of(views.subrange(0, i + 1)) == prefix);
            },
        }
        i += 1;
    }
    assert(views.subrange(0, values.len() as int) =~= views);
    if any {
        Some(acc)
    } else {
        None
    }
}

/// Length of a text in bytes of UTF-8, as the length block reports it.
pub fn utf8_len(s: &str) -> (n: usize)
    ensures
        n == vstd::utf8::encode_utf8(s@).len() as usize,
{
    s.len()
}

/// `to` before every character of `s` and once more at the end: what
/// replacing the empty pattern gives.
pub open spec fn interleaved(s: Seq<char>, to: Seq<char>) -> Seq<char>
    decreases s.len(),
{
    if s.len() == 0 {
        to
    } else {
        to + seq![s[0]] + interleaved(s.subrange(1, s.len() as int), to)
    }
}

/// `s` with every non-overlapping occurrence of `from`, taken from the
/// left, replaced by `to`.
pub open spec fn replaced(s: Seq<char>, from: Seq<char>, to: Seq<char>) -> Seq<char>
    decreases s.len(),
{
    if from.len() == 0 {
        interleaved(s, to)
    } else if s.len() == 0 {
        seq![]
    } else if from.len() <= s.len() && s.subrange(0, from.len() as int) == from {
        to + replaced(s.subrange(from.len() as int, s.len() as int), from, to)
    } else {
        seq![s[0]] + replaced(s.subrange(1, s.len() as int), from, to)
    }
}

fn matches_at(s: &str, n: usize, pat: &str, m: usize, i: usize) -> (r: bool)
    requires
        n == s@.len(),
        m == pat@.len(),
        i <= n,
    ensures
        r == (i + m <= n && s@.subrange(i as int, i + m) == pat@),
{
    if m > n - i {
        return false;
    }
    let mut k: usize = 0;
    while k < m
        invariant
            n == s@.len(),
            m == pat@.len(),
            i + m <= n,
            k <= m,
            forall|j: int| 0 <= j < k ==> s@[i + j] == pat@[j],
        decreases m - k,
    {
        if s.get_char(i + k) != pat.get_char(k) {
            assert(s@.subrange(i as int, i + m)[k as int] != pat@[k as int]);
            return false;
        }
        k += 1;
    }
    assert(s@.subrange(i as int, i + m) =~= pat@);
    true
}

/// Replaces every non-overlapping occurrence of `from` in `s`, scanning
/// from the left, by `to`. An empty `from` puts `to` before every
/// character and at the end.
pub fn replace_text(s: &str, from: &str, to: &str) -> (r: String)
    ensures
        r@ == replaced(s@, from@, to@),
{
    let n = s.unicode_len();
    let m = from.unicode_len();
    let mut out = String::new();
    let mut i: usize = 0;
    assert(s@.subrange(0, n as int) =~= s@);
    if m == 0 {
        while i < n
            invariant
                n == s@.len(),
                m == from@.len(),
                m == 0,
                i <= n,
                out@ + interleaved(s@.subrange(i as int, n as int), to@) == replaced(s@, from@, to@),
            decreases n - i,
        {
            let ghost rest = s@.subrange(i as int, n as int);
            let ghost before = out@;
            assert(rest.subrange(1, rest.len() as int) =~= s@.subrange(i + 1, n as int));
            let c = s.substring_char(i, i + 1);
            assert(c@ =~= seq![rest[0]]);
            out.append(to);
            out.append(c);
            assert(out@ + interleaved(s@.subrange(i + 1, n as int), to@) =~= before + interleaved(
                rest,
                to@,
            ));
            i += 1;
        }
        out.append(to);
        assert(s@.subrange(n as int, n as int) =~= Seq::<char>::empty());
        return out;
    }
    while i < n
        invariant
            n == s@.len(),
            m == from@.len(),
            m > 0,
            i <= n,
            out@ + replaced(s@.subrange(i as int, n as int), from@, to@) == replaced(s@, from@, to@),
        decreases n - i,
    {
        let ghost rest = s@.subrange(i as int, n as int);
        if matches_at(s, n, from, m, i) {
            assert(rest.subrange(0, m as int) =~= s@.subrange(i as int, i + m));
            assert(rest.subrange(m as int, rest.len() as int) =~= s@.subrange(i + m, n as int));
            let ghost before = out@;
            out.append(to);
            assert(out@ + replaced(s@.subrange(i + m, n as int), from@, to@) =~= before + replaced(
                rest,
                from@,
                to@,
            ));
            i += m;
        } else {
            assert(m <= rest.len() ==> rest.subrange(0, m as int) =~= s@.subrange(i as int, i + m));
            assert(rest.subrange(1, rest.len() as int) =~= s@.subrange(i + 1, n as int));
            let ghost before = out@;
            let c = s.substring_char(i, i + 1);
            assert(c@ =~= seq![rest[0]]);
            out.append(c);
            assert(out@ + replaced(s@.subrange(i + 1, n as int), from@, to@) =~= before + replaced(
                rest,
                from@,
                to@,
            ));
            i += 1;
        }
    }
    assert(s@.subrange(n as int, n as int) =~= Seq::<char>::empty());
    out
}

} // verus!
