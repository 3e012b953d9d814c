//! Utility functions: reply-markup escaping and small string helpers.

use vstd::prelude::*;

verus! {

/// Relies on `String::push`: appends the given character to the end of the
/// string.
pub assume_specification[ String::push ](s: &mut String, ch: char)
    ensures
        final(s)@ == old(s)@.push(ch),
;

/// The characters that carry formatting meaning in the reply markup dialect
/// and must be neutralized before untrusted text is interpolated.
pub open spec fn is_markup_special(c: char) -> bool {
    c == '*' || c == '_' || c == '`' || c == '['
}

/// First escaping phase: literal backslashes are treated as already-invalid
/// escape attempts and removed outright.
pub open spec fn strip_backslashes(s: Seq<char>) -> Seq<char>
    decreases s.len(),
{
    if s.len() == 0 {
        Seq::empty()
    } else if s[0] == '\\' {
        strip_backslashes(s.drop_first())
    } else {
        seq![s[0]] + strip_backslashes(s.drop_first())
    }
}

/// What one backslash-free character contributes to the escaped output.
pub open spec fn escape_head(c: char) -> Seq<char> {
    if is_markup_special(c) {
        seq!['\\', c]
    } else {
        seq![c]
    }
}

/// Second escaping phase: each markup-special character gets a single
/// backslash prefixed; everything else is kept as it is.
pub open spec fn escape_unescaped(s: Seq<char>) -> Seq<char>
    decreases s.len(),
{
    if s.len() == 0 {
        Seq::empty()
    } else {
        escape_head(s[0]) + escape_unescaped(s.drop_first())
    }
}

/// The full escaping policy, in its fixed order: strip every literal
/// backslash first, then prefix each of `*`, `_`, `` ` ``, `[` with a single
/// backslash.
pub open spec fn escape_spec(s: Seq<char>) -> Seq<char> {
    escape_unescaped(strip_backslashes(s))
}

/// What a single input character contributes to the escaped output.
pub open spec fn escape_char_code(c: char) -> Seq<char> {
    if c == '\\' {
        Seq::empty()
    } else {
        escape_head(c)
    }
}

proof fn lemma_strip_backslashes_concat(a: Seq<char>, b: Seq<char>)
    ensures
        strip_backslashes(a + b) == strip_backslashes(a) + strip_backslashes(b),
    decreases a.len(),
{
    if a.len() == 0 {
        assert(a + b =~= b);
        assert(strip_backslashes(a) + strip_backslashes(b) =~= strip_backslashes(b));
    } else {
        assert((a + b).drop_first() =~= a.drop_first() + b);
        lemma_strip_backslashes_concat(a.drop_first(), b);
        if a[0] == '\\' {
        } else {
            assert(seq![a[0]] + (strip_backslashes(a.drop_first()) + strip_backslashes(b))
                =~= (seq![a[0]] + strip_backslashes(a.drop_first())) + strip_backslashes(b));
        }
    }
}

proof fn lemma_escape_unescaped_concat(a: Seq<char>, b: Seq<char>)
    ensures
        escape_unescaped(a + b) == escape_unescaped(a) + escape_unescaped(b),
    decreases a.len(),
{
    if a.len() == 0 {
        assert(a + b =~= b);
        assert(escape_unescaped(a) + escape_unescaped(b) =~= escape_unescaped(b));
    } else {
        assert((a + b).drop_first() =~= a.drop_first() + b);
        lemma_escape_unescaped_concat(a.drop_first(), b);
        assert(escape_head(a[0]) + (escape_unescaped(a.drop_first()) + escape_unescaped(b))
            =~= (escape_head(a[0]) + escape_unescaped(a.drop_first())) + escape_unescaped(b));
    }
}

/// Escaping one more character extends the escaped output by exactly that
/// character's contribution.
proof fn lemma_escape_spec_snoc(t: Seq<char>, c: char)
    ensures
        escape_spec(t.push(c)) == escape_spec(t) + escape_char_code(c),
{
    let single = seq![c];
    assert(t.push(c) =~= t + single);
    lemma_strip_backslashes_concat(t, single);
    assert(single.drop_first() =~= Seq::<char>::empty());
    assert(strip_backslashes(Seq::<char>::empty()) == Seq::<char>::empty());
    assert(escape_unescaped(Seq::<char>::empty()) == Seq::<char>::empty());
    if c == '\\' {
        assert(strip_backslashes(single) =~= Seq::<char>::empty());
        assert(strip_backslashes(t) + strip_backslashes(single) =~= strip_backslashes(t));
        assert(escape_spec(t) + escape_char_code(c) =~= escape_spec(t));
    } else {
        assert(strip_backslashes(single) =~= single);
        lemma_escape_unescaped_concat(strip_backslashes(t), single);
        assert(escape_unescaped(single) =~= escape_head(c) + Seq::<char>::empty());
        assert(escape_head(c) + Seq::<char>::empty() =~= escape_head(c));
    }
}

/// Neutralize markup-special characters in untrusted text.
///
/// Literal backslashes are removed first; each of `*`, `_`, `` ` ``, `[` is
/// then prefixed with a single backslash.  Callers must escape raw input
/// exactly once: re-escaping already-escaped text alters it.
pub fn escape_markdown(text: &str) -> (r: String)
    ensures
        r@ == escape_spec(text@),
{
    let n = text.unicode_len();
    let mut out = String::new();
    let mut i: usize = 0;
    proof {
        assert(text@.take(0) =~= Seq::<char>::empty());
    }
    while i < n
        invariant
            i <= n,
            n == text@.len(),
            out@ == escape_spec(text@.take(i as int)),
        decreases n - i,
    {
        let c = text.get_char(i);
        if c == '\\' {
            // stripped: an already-invalid escape attempt
        } else if c == '*' || c == '_' || c == '`' || c == '[' {
            out.push('\\');
            out.push(c);
        } else {
            out.push(c);
        }
        proof {
            assert(text@.take(i + 1) =~= text@.take(i as int).push(text@[i as int]));
            lemma_escape_spec_snoc(text@.take(i as int), text@[i as int]);
        }
        i = i + 1;
    }
    proof {
        assert(text@.take(n as int) =~= text@);
    }
    out
}

/// No backslash means the stripping phase is the identity.
proof fn lemma_strip_backslashes_identity(s: Seq<char>)
    requires
        forall|i: int| 0 <= i < s.len() ==> s[i] != '\\',
    ensures
        strip_backslashes(s) == s,
    decreases s.len(),
{
    if s.len() == 0 {
        assert(strip_backslashes(s) =~= s);
    } else {
        lemma_strip_backslashes_identity(s.drop_first());
        assert(seq![s[0]] + s.drop_first() =~= s);
    }
}

proof fn lemma_escape_unescaped_injective(s1: Seq<char>, s2: Seq<char>)
    requires
        forall|i: int| 0 <= i < s1.len() ==> s1[i] != '\\',
        forall|i: int| 0 <= i < s2.len() ==> s2[i] != '\\',
        escape_unescaped(s1) == escape_unescaped(s2),
    ensures
        s1 == s2,
    decreases s1.len(),
{
    let e1 = escape_unescaped(s1);
    let e2 = escape_unescaped(s2);
    if s1.len() == 0 {
        if s2.len() > 0 {
            assert(e2.len() >= escape_head(s2[0]).len());
            assert(false);
        }
        assert(s1 =~= s2);
    } else if s2.len() == 0 {
        assert(e1.len() >= escape_head(s1[0]).len());
        assert(false);
    } else {
        let c1 = s1[0];
        let c2 = s2[0];
        if is_markup_special(c1) && !is_markup_special(c2) {
            // e1 starts with a backslash, e2 with a character that is
            // neither a backslash (hypothesis) nor escaped
            assert(e1[0] == '\\');
            assert(e2[0] == c2);
            assert(false);
        } else if !is_markup_special(c1) && is_markup_special(c2) {
            assert(e1[0] == c1);
            assert(e2[0] == '\\');
            assert(false);
        } else {
            let h: int = if is_markup_special(c1) { 2 } else { 1 };
            assert(e1[h - 1] == c1);
            assert(e2[h - 1] == c2);
            let t1 = escape_unescaped(s1.drop_first());
            let t2 = escape_unescaped(s2.drop_first());
            assert(t1 =~= t2) by {
                assert(forall|k: int| 0 <= k < t1.len() ==> t1[k] == e1[h + k]);
                assert(forall|k: int| 0 <= k < t2.len() ==> t2[k] == e2[h + k]);
            }
            assert(forall|k: int| 0 <= k < s1.drop_first().len() ==> #[trigger] s1.drop_first()[k]
                != '\\');
            assert(forall|k: int| 0 <= k < s2.drop_first().len() ==> #[trigger] s2.drop_first()[k]
                != '\\');
            lemma_escape_unescaped_injective(s1.drop_first(), s2.drop_first());
            assert(forall|i: int| 1 <= i < s1.len() ==> #[trigger] s1[i] == s1.drop_first()[i - 1]);
            assert(forall|i: int| 1 <= i < s2.len() ==> #[trigger] s2[i] == s2.drop_first()[i - 1]);
            assert(s1 =~= s2);
        }
    }
}

/// Escaping is injective on backslash-free inputs: two distinct raw texts
/// can never produce the same escaped output, so decoding is unambiguous.
pub proof fn lemma_escape_injective(s1: Seq<char>, s2: Seq<char>)
    requires
        forall|i: int| 0 <= i < s1.len() ==> s1[i] != '\\',
        forall|i: int| 0 <= i < s2.len() ==> s2[i] != '\\',
        escape_spec(s1) == escape_spec(s2),
    ensures
        s1 == s2,
{
    lemma_strip_backslashes_identity(s1);
    lemma_strip_backslashes_identity(s2);
    lemma_escape_unescaped_injective(s1, s2);
}

/// The parts joined into one sequence, with `sep` between every two parts.
pub open spec fn join_with(parts: Seq<Seq<char>>, sep: char) -> Seq<char>
    decreases parts.len(),
{
    if parts.len() == 0 {
        Seq::empty()
    } else if parts.len() == 1 {
        parts[0]
    } else {
        parts[0] + seq![sep] + join_with(parts.drop_first(), sep)
    }
}

/// Joining one more part appends a separator (if anything came before it)
/// and the part itself.
pub proof fn lemma_join_with_snoc(parts: Seq<Seq<char>>, x: Seq<char>, sep: char)
    ensures
        parts.len() == 0 ==> join_with(parts.push(x), sep) == x,
        parts.len() > 0 ==> join_with(parts.push(x), sep) == join_with(parts, sep) + seq![sep]
            + x,
    decreases parts.len(),
{
    if parts.len() == 0 {
        assert(join_with(parts.push(x), sep) == parts.push(x)[0]);
        assert(parts.push(x)[0] == x);
    } else if parts.len() == 1 {
        assert(parts.push(x).drop_first() =~= seq![x]);
        assert(join_with(seq![x], sep) == x);
        assert(join_with(parts, sep) == parts[0]);
        assert(join_with(parts.push(x), sep) == parts[0] + seq![sep] + x);
    } else {
        assert(parts.push(x).drop_first() =~= parts.drop_first().push(x));
        lemma_join_with_snoc(parts.drop_first(), x, sep);
        assert((parts[0] + seq![sep] + join_with(parts.drop_first(), sep)) + seq![sep] + x
            =~= parts[0] + seq![sep] + (join_with(parts.drop_first(), sep) + seq![sep] + x));
    }
}

/// Join the given strings with a single separator character between them.
pub fn join_strings(parts: &Vec<String>, sep: char) -> (r: String)
    ensures
        r@ == join_with(parts.deep_view(), sep),
{
    let mut out = String::new();
    let mut i: usize = 0;
    proof {
        assert(parts.deep_view().take(0) =~= Seq::<Seq<char>>::empty());
    }
    while i < parts.len()
        invariant
            i <= parts.len(),
            out@ == join_with(parts.deep_view().take(i as int), sep),
        decreases parts.len() - i,
    {
        if i > 0 {
            out.push(sep);
        }
        out.append(parts[i].as_str());
        proof {
            assert(parts.deep_view().take(i + 1) =~= parts.deep_view().take(i as int).push(
                parts.deep_view()[i as int]));
            lemma_join_with_snoc(parts.deep_view().take(i as int), parts.deep_view()[i as int],
                sep);
            assert(parts.deep_view()[i as int] == parts@[i as int]@);
        }
        i = i + 1;
    }
    proof {
        assert(parts.deep_view().take(parts@.len() as int) =~= parts.deep_view());
    }
    out
}

/// Index of the first occurrence of `c` in `s`, or `s.len()` if `s` does not
/// contain `c`.
pub open spec fn find_char(s: Seq<char>, c: char) -> int
    decreases s.len(),
{
    if s.len() == 0 {
        0
    } else if s[0] == c {
        0
    } else {
        1 + find_char(s.drop_first(), c)
    }
}

/// `find_char` returns the first position holding `c`, or the length.
pub proof fn lemma_find_char_spec(s: Seq<char>, c: char)
    ensures
        0 <= find_char(s, c) <= s.len(),
        find_char(s, c) < s.len() ==> s[find_char(s, c)] == c,
        forall|j: int| 0 <= j < find_char(s, c) ==> s[j] != c,
    decreases s.len(),
{
    if s.len() == 0 {
    } else if s[0] == c {
    } else {
        lemma_find_char_spec(s.drop_first(), c);
        assert(forall|j: int| 1 <= j < find_char(s, c) ==> #[trigger] s[j] == s.drop_first()[j
            - 1]);
    }
}

/// A position with the first-occurrence properties is `find_char`'s result.
pub proof fn lemma_find_char_unique(s: Seq<char>, c: char, i: int)
    requires
        0 <= i <= s.len(),
        forall|j: int| 0 <= j < i ==> s[j] != c,
        i < s.len() ==> s[i] == c,
    ensures
        find_char(s, c) == i,
{
    lemma_find_char_spec(s, c);
    let f = find_char(s, c);
    if f < i {
        assert(s[f] != c);
        assert(false);
    } else if i < f {
        assert(s[i] != c);
        assert(false);
    }
}

/// `s` cut at every occurrence of `c`: the separators themselves are
/// dropped, and consecutive separators yield empty pieces.  The result
/// always holds at least one piece.
pub open spec fn split_on(s: Seq<char>, c: char) -> Seq<Seq<char>>
    decreases s.len(),
    via split_on_decreases
{
    let i = find_char(s, c);
    if i == s.len() {
        seq![s]
    } else {
        seq![s.take(i)] + split_on(s.skip(i + 1), c)
    }
}

#[via_fn]
proof fn split_on_decreases(s: Seq<char>, c: char) {
    lemma_find_char_spec(s, c);
}

/// Splitting the join of separator-free pieces gives the pieces back.
pub proof fn lemma_split_on_join(parts: Seq<Seq<char>>, sep: char)
    requires
        parts.len() > 0,
        forall|i: int, j: int|
            0 <= i < parts.len() && 0 <= j < parts[i].len() ==> #[trigger] parts[i][j] != sep,
    ensures
        split_on(join_with(parts, sep), sep) == parts,
    decreases parts.len(),
{
    let joined = join_with(parts, sep);
    if parts.len() == 1 {
        assert(joined == parts[0]);
        lemma_find_char_unique(joined, sep, joined.len() as int);
        assert(split_on(joined, sep) =~= parts);
    } else {
        let head = parts[0];
        let rest = join_with(parts.drop_first(), sep);
        assert(joined == head + seq![sep] + rest);
        assert(forall|j: int| 0 <= j < head.len() ==> #[trigger] joined[j] == head[j]);
        assert(joined[head.len() as int] == sep);
        lemma_find_char_unique(joined, sep, head.len() as int);
        assert(joined.take(head.len() as int) =~= head);
        assert(joined.skip(head.len() as int + 1) =~= rest);
        assert(forall|i: int, j: int|
            0 <= i < parts.drop_first().len() && 0 <= j < parts.drop_first()[i].len()
                ==> #[trigger] parts.drop_first()[i][j] != sep);
        lemma_split_on_join(parts.drop_first(), sep);
        assert(seq![head] + parts.drop_first() =~= parts);
    }
}

/// Scan `s` between `start` (inclusive) and `end` (exclusive) for the first
/// occurrence of `c`; `end` means `c` does not occur in that range.
pub fn find_char_in(s: &str, start: usize, end: usize, c: char) -> (j: usize)
    requires
        start <= end,
        end <= s@.len(),
    ensures
        start <= j <= end,
        forall|k: int| start <= k < j ==> s@[k] != c,
        j < end ==> s@[j as int] == c,
{
    let mut i: usize = start;
    while i < end
        invariant
            start <= i <= end,
            end <= s@.len(),
            forall|k: int| start <= k < i ==> s@[k] != c,
        decreases end - i,
    {
        if s.get_char(i) == c {
            return i;
        }
        i = i + 1;
    }
    end
}

/// Character-by-character string comparison, equivalent to view equality.
pub fn str_eq(a: &str, b: &str) -> (r: bool)
    ensures
        r == (a@ == b@),
{
    let na = a.unicode_len();
    let nb = b.unicode_len();
    if na != nb {
        return false;
    }
    let mut i: usize = 0;
    while i < na
        invariant
            i <= na,
            na == a@.len(),
            na == b@.len(),
            forall|k: int| 0 <= k < i ==> a@[k] == b@[k],
        decreases na - i,
    {
        if a.get_char(i) != b.get_char(i) {
            return false;
        }
        i = i + 1;
    }
    proof {
        assert(a@ =~= b@);
    }
    true
}

} // verus!
