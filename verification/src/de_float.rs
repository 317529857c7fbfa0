use vstd::prelude::*;

verus! {

/// `s` with every decimal point replaced by a comma.
pub open spec fn commas_for_points(s: Seq<char>) -> Seq<char> {
    Seq::new(s.len(), |i: int| if s[i] == '.' { ',' } else { s[i] })
}

/// A thousands separator stands before position `j` of an integer part of
/// length `p`: before every third character counted from the right, never
/// at the very start.
pub open spec fn separator_before(p: int, j: int) -> bool {
    0 < j < p && (p - j) % 3 == 0
}

/// The first `i` characters of the integer part `t`, with separators.
pub open spec fn grouped_prefix(t: Seq<char>, i: int) -> Seq<char>
    decreases i,
{
    if i <= 0 {
        Seq::<char>::empty()
    } else if separator_before(t.len() as int, i - 1) {
        grouped_prefix(t, i - 1) + seq!['.', t[i - 1]]
    } else {
        grouped_prefix(t, i - 1) + seq![t[i - 1]]
    }
}

/// The integer part with its thousands separators.
pub open spec fn grouped(t: Seq<char>) -> Seq<char> {
    grouped_prefix(t, t.len() as int)
}

/// The index of the first decimal point of `s`, or its length if there is
/// none.
pub open spec fn first_point(s: Seq<char>) -> int
    decreases s.len(),
{
    if s.len() == 0 {
        0
    } else if s[0] == '.' {
        0
    } else {
        1 + first_point(s.drop_first())
    }
}

/// German decimal notation: points become commas, and the part before the
/// first point gains a point as thousands separator before every third
/// character counted from that point, never at the very start.  A string
/// without a point is left unchanged.
pub open spec fn germanized(s: Seq<char>) -> Seq<char> {
    let p = first_point(s);
    if p == s.len() {
        s
    } else {
        grouped(s.take(p)) + commas_for_points(s.skip(p))
    }
}

proof fn lemma_first_point(s: Seq<char>, i: int)
    requires
        0 <= i <= s.len(),
        forall|m: int| 0 <= m < i ==> #[trigger] s[m] != '.',
        i == s.len() || s[i] == '.',
    ensures
        first_point(s) == i,
    decreases i, s.len(),
{
    if s.len() == 0 {
    } else if i == 0 {
        if s.len() > 0 && s[0] != '.' {
            assert(i == s.len() || s[i] == '.');
        }
    } else {
        lemma_first_point(s.drop_first(), i - 1);
    }
}

/// Rewrites decimal number text into German notation.
pub fn germanize_float(formatted: &mut String)
    ensures
        final(formatted)@ == germanized(old(formatted)@),
{
    let ghost s = old(formatted)@;
    let n = formatted.as_str().unicode_len();
    // find the first decimal point
    let mut p: usize = n;
    let mut i: usize = 0;
    while i < n && p == n
        invariant
            0 <= i <= n,
            p <= n,
            n == s.len(),
            formatted@ == s,
            p == n ==> forall|m: int| 0 <= m < i ==> #[trigger] s[m] != '.',
            p < n ==> s[p as int] == '.' && (forall|m: int| 0 <= m < p ==> #[trigger] s[m] != '.'),
        decreases n - i,
    {
        if formatted.as_str().get_char(i) == '.' {
            p = i;
        }
        i += 1;
    }
    proof {
        if p == n {
            lemma_first_point(s, n as int);
        } else {
            lemma_first_point(s, p as int);
        }
    }
    if p == n {
        return ;
    }
    let ghost t = s.take(p as int);
    let source = formatted.clone();
    let mut out = String::new();
    let mut i: usize = 0;
    while i < n
        invariant
            0 <= i <= n,
            n == s.len(),
            p < n,
            first_point(s) == p,
            forall|m: int| 0 <= m < p ==> #[trigger] s[m] != '.',
            t == s.take(p as int),
            source@ == s,
            i <= p ==> out@ == grouped_prefix(t, i as int),
            i > p ==> out@ == grouped(t) + commas_for_points(s.skip(p as int)).take(i - p),
        decreases n - i,
    {
        if i > 0 && i < p && (p - i) % 3 == 0 {
            out.append(".");
        }
        let c = source.as_str().get_char(i);
        if c == '.' {
            out.append(",");
        } else {
            out.append(source.as_str().substring_char(i, i + 1));
        }
        proof {
            reveal_strlit(".");
            reveal_strlit(",");
            let ghost tail = commas_for_points(s.skip(p as int));
            if i < p {
                assert(s[i as int] != '.');
                assert(t[i as int] == s[i as int]);
                assert(s.subrange(i as int, i + 1 as int) =~= seq![s[i as int]]);
                if separator_before(p as int, i as int) {
                    assert(out@ =~= grouped_prefix(t, i + 1 as int));
                } else {
                    assert(out@ =~= grouped_prefix(t, i + 1 as int));
                }
            } else {
                assert(tail[i - p] == (if s[i as int] == '.' {
                    ','
                } else {
                    s[i as int]
                }));
                assert(s.subrange(i as int, i + 1 as int) =~= seq![s[i as int]]);
                if i == p {
                    assert(out@ =~= grouped(t) + tail.take(1));
                } else {
                    assert(tail.take(i - p) + seq![tail[i - p]] =~= tail.take(i - p + 1));
                    assert(out@ =~= grouped(t) + tail.take(i - p + 1));
                }
            }
        }
        i += 1;
    }
    proof {
        assert(commas_for_points(s.skip(p as int)).take(n - p) =~= commas_for_points(
            s.skip(p as int),
        ));
        assert(out@ =~= germanized(s));
    }
    *formatted = out;
}

} // verus!
