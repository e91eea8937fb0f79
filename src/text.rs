use vstd::prelude::*;
use vstd::string::StrSliceExecFns;

verus! {

/// The characters of `s`, one by one.
pub fn chars_of(s: &str) -> (r: Vec<char>)
    ensures
        r@ == s@,
{
    let n = s.unicode_len();
    let mut out: Vec<char> = Vec::new();
    let mut i: usize = 0;
    while i < n
        invariant
            n == s@.len(),
            i <= n,
            out@ == s@.subrange(0, i as int),
        decreases n - i,
    {
        out.push(s.get_char(i));
        i = i + 1;
        proof {
            assert(out@ =~= s@.subrange(0, i as int));
        }
    }
    proof {
        assert(out@ =~= s@);
    }
    out
}

/// Whether two strings hold the same characters.
pub fn same_text(a: &str, b: &str) -> (r: bool)
    ensures
        r == (a@ == b@),
{
    let x = a.to_owned();
    let y = b.to_owned();
    x == y
}

} // verus!

verus! {

/// ASCII whitespace: space, tab, line feed, form feed, carriage return.
pub open spec fn is_ascii_ws(c: char) -> bool {
    c == ' ' || c == '\t' || c == '\n' || c == '\x0C' || c == '\r'
}

pub fn ascii_ws(c: char) -> (r: bool)
    ensures
        r == is_ascii_ws(c),
{
    c == ' ' || c == '\t' || c == '\n' || c == '\x0C' || c == '\r'
}

/// The maximal runs of characters other than ASCII whitespace, in order.
pub open spec fn fields(s: Seq<char>) -> Seq<Seq<char>>
    decreases s.len(),
{
    if s.len() == 0 {
        Seq::empty()
    } else {
        let p = s.drop_last();
        let c = s.last();
        if is_ascii_ws(c) {
            fields(p)
        } else if p.len() > 0 && !is_ascii_ws(p.last()) {
            let f = fields(p);
            f.update(f.len() - 1, f.last().push(c))
        } else {
            fields(p).push(seq![c])
        }
    }
}

/// The pieces of `s` between occurrences of `sep`; there is always one more
/// piece than there are separators.
pub open spec fn split_on(sep: char, s: Seq<char>) -> Seq<Seq<char>>
    decreases s.len(),
{
    if s.len() == 0 {
        seq![Seq::empty()]
    } else {
        let p = split_on(sep, s.drop_last());
        if s.last() == sep {
            p.push(Seq::empty())
        } else {
            p.update(p.len() - 1, p.last().push(s.last()))
        }
    }
}

/// The lines of `s`: the pieces between line feeds, without the empty piece
/// after a final line feed (so the empty text has no lines). A carriage
/// return before a line feed stays at the end of its line.
pub open spec fn lines(s: Seq<char>) -> Seq<Seq<char>> {
    let p = split_on('\n', s);
    if p.last().len() == 0 {
        p.drop_last()
    } else {
        p
    }
}

pub proof fn lemma_split_nonempty(sep: char, s: Seq<char>)
    ensures
        split_on(sep, s).len() >= 1,
    decreases s.len(),
{
    if s.len() > 0 {
        lemma_split_nonempty(sep, s.drop_last());
    }
}

pub open spec fn views(v: Seq<String>) -> Seq<Seq<char>> {
    v.map_values(|x: String| x@)
}

/// A word without whitespace after empty text or whitespace is one more
/// field.
pub proof fn lemma_fields_append_word(x: Seq<char>, w: Seq<char>)
    requires
        x.len() == 0 || is_ascii_ws(x.last()),
        w.len() > 0,
        forall|i: int| 0 <= i < w.len() ==> !is_ascii_ws(#[trigger] w[i]),
    ensures
        fields(x + w) == fields(x).push(w),
    decreases w.len(),
{
    if w.len() == 1 {
        assert((x + w).drop_last() =~= x);
        assert(seq![w[0]] =~= w);
    } else {
        let w2 = w.drop_last();
        lemma_fields_append_word(x, w2);
        assert((x + w).drop_last() =~= x + w2);
        assert(fields(x + w2).last() == w2);
        assert(w2.push(w.last()) =~= w);
        assert(fields(x).push(w2).update(fields(x).len() as int, w) =~= fields(x).push(w));
    }
}

/// Whitespace at the end adds no field.
pub proof fn lemma_fields_append_ws(x: Seq<char>, c: char)
    requires
        is_ascii_ws(c),
    ensures
        fields(x.push(c)) == fields(x),
{
    assert(x.push(c).drop_last() =~= x);
}

/// The fields of `s`, one string each.
pub fn split_fields(s: &str) -> (r: Vec<String>)
    ensures
        views(r@) == fields(s@),
{
    let cs = chars_of(s);
    let n = cs.len();
    let mut out: Vec<String> = Vec::new();
    let mut in_word = false;
    let mut start: usize = 0;
    let mut i: usize = 0;
    proof {
        assert(cs@.subrange(0, 0) =~= Seq::<char>::empty());
        assert(views(out@) =~= Seq::<Seq<char>>::empty());
    }
    while i < n
        invariant
            n == cs@.len(),
            cs@ == s@,
            i <= n,
            in_word ==> start < i && !is_ascii_ws(cs@[i - 1]),
            !in_word ==> i == 0 || is_ascii_ws(cs@[i - 1]),
            in_word ==> views(out@).push(cs@.subrange(start as int, i as int)) == fields(
                cs@.subrange(0, i as int),
            ),
            !in_word ==> views(out@) == fields(cs@.subrange(0, i as int)),
        decreases n - i,
    {
        let c = cs[i];
        let ghost pre = cs@.subrange(0, i as int);
        proof {
            assert(cs@.subrange(0, i + 1).drop_last() =~= pre);
            assert(cs@.subrange(0, i + 1).last() == c);
        }
        if ascii_ws(c) {
            if in_word {
                let w = s.substring_char(start, i);
                out.push(w.to_owned());
                proof {
                    assert(views(out@) =~= views(out@).drop_last().push(w@));
                    assert(views(out@).drop_last() =~= views(out@.drop_last()));
                }
                in_word = false;
            }
        } else {
            if !in_word {
                start = i;
                in_word = true;
                proof {
                    assert(cs@.subrange(start as int, i + 1) =~= seq![c]);
                }
            } else {
                proof {
                    assert(pre.last() == cs@[i - 1]);
                    assert(cs@.subrange(start as int, i + 1) =~= cs@.subrange(start as int, i as int).push(c));
                    assert(views(out@).push(cs@.subrange(start as int, i + 1)) =~= views(out@).push(
                        cs@.subrange(start as int, i as int),
                    ).update(views(out@).len() as int, cs@.subrange(start as int, i + 1)));
                }
            }
        }
        i = i + 1;
    }
    proof {
        assert(cs@.subrange(0, n as int) =~= cs@);
    }
    if in_word {
        let w = s.substring_char(start, n);
        out.push(w.to_owned());
        proof {
            assert(views(out@) =~= views(out@).drop_last().push(w@));
            assert(views(out@).drop_last() =~= views(out@.drop_last()));
        }
    }
    out
}

/// The finished lines of a prefix of `s` begin the finished lines of `s`,
/// and so begin its lines.
pub proof fn lemma_lines_prefix(s: Seq<char>, j: int)
    requires
        0 <= j <= s.len(),
    ensures
        split_on('\n', s.subrange(0, j)).drop_last().len() <= lines(s).len(),
        split_on('\n', s.subrange(0, j)).drop_last() == lines(s).subrange(
            0,
            split_on('\n', s.subrange(0, j)).drop_last().len() as int,
        ),
    decreases s.len() - j,
{
    lemma_split_nonempty('\n', s.subrange(0, j));
    lemma_split_nonempty('\n', s);
    if j == s.len() {
        assert(s.subrange(0, j) =~= s);
        let p = split_on('\n', s);
        assert(p.drop_last() =~= lines(s).subrange(0, p.drop_last().len() as int));
    } else {
        lemma_lines_prefix(s, j + 1);
        let a = s.subrange(0, j);
        let b = s.subrange(0, j + 1);
        assert(b.drop_last() =~= a);
        let pa = split_on('\n', a);
        let pb = split_on('\n', b);
        if s[j] == '\n' {
            assert(pb.drop_last() =~= pa);
            assert(pa.drop_last() =~= pb.drop_last().subrange(0, pa.drop_last().len() as int));
        } else {
            assert(pb.drop_last() =~= pa.drop_last());
        }
        assert(pa.drop_last() =~= lines(s).subrange(0, pa.drop_last().len() as int));
    }
}

/// The decimal digit for `d < 10`.
pub open spec fn digit(d: nat) -> char {
    if d == 0 { '0' } else if d == 1 { '1' } else if d == 2 { '2' } else if d == 3 { '3' }
    else if d == 4 { '4' } else if d == 5 { '5' } else if d == 6 { '6' } else if d == 7 { '7' }
    else if d == 8 { '8' } else { '9' }
}

/// `n` written in decimal, without leading zeros.
pub open spec fn decimal(n: nat) -> Seq<char>
    decreases n,
{
    if n < 10 {
        seq![digit(n)]
    } else {
        decimal(n / 10).push(digit(n % 10))
    }
}

fn digit_text(d: u64) -> (r: &'static str)
    requires
        d < 10,
    ensures
        r@ == seq![digit(d as nat)],
{
    proof {
        reveal_strlit("0");
        reveal_strlit("1");
        reveal_strlit("2");
        reveal_strlit("3");
        reveal_strlit("4");
        reveal_strlit("5");
        reveal_strlit("6");
        reveal_strlit("7");
        reveal_strlit("8");
        reveal_strlit("9");
    }
    if d == 0 { "0" } else if d == 1 { "1" } else if d == 2 { "2" } else if d == 3 { "3" }
    else if d == 4 { "4" } else if d == 5 { "5" } else if d == 6 { "6" } else if d == 7 { "7" }
    else if d == 8 { "8" } else { "9" }
}

/// Appends `n` in decimal to `out`.
pub fn push_decimal(out: &mut String, n: u64)
    ensures
        final(out)@ == old(out)@ + decimal(n as nat),
    decreases n,
{
    if n < 10 {
        out.append(digit_text(n));
    } else {
        push_decimal(out, n / 10);
        out.append(digit_text(n % 10));
        proof {
            assert(old(out)@ + decimal((n / 10) as nat) + seq![digit((n % 10) as nat)] =~= old(out)@
                + decimal(n as nat));
        }
    }
}

} // verus!
