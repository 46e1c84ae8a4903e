//! Character-level text utilities: HTML angle-bracket escaping, the space-to-
//! hyphen rewriting used for heading anchors, lowercasing, and the few string
//! building blocks the scanner and renderer need.

use vstd::prelude::*;

verus! {

/// What one character contributes to an escaped text: `<` and `>` become the
/// HTML entities `&lt;` and `&gt;`, every other character stands unchanged.
pub open spec fn escaped_char(c: char) -> Seq<char> {
    if c == '<' {
        "&lt;"@
    } else if c == '>' {
        "&gt;"@
    } else {
        seq![c]
    }
}

/// A text with `<` and `>` escaped to HTML entities.
pub open spec fn escaped(s: Seq<char>) -> Seq<char>
    decreases s.len(),
{
    if s.len() == 0 {
        Seq::empty()
    } else {
        escaped_char(s[0]) + escaped(s.skip(1))
    }
}

/// A text with every space replaced by a hyphen.
pub open spec fn dashed(s: Seq<char>) -> Seq<char> {
    s.map_values(|c: char| if c == ' ' { '-' } else { c })
}

/// The lowercase form of a text, as `str::to_lowercase` computes it. The
/// mapping depends on the characters alone, so it is named rather than
/// written out.
pub uninterp spec fn lower_of(s: Seq<char>) -> Seq<char>;

/// Relies on `str::to_lowercase`: the result is the Unicode lowercase of the
/// input and depends on the input characters alone.
#[verifier::external_body]
pub fn lowercase(s: &str) -> (r: String)
    ensures
        r@ == lower_of(s@),
{
    s.to_lowercase()
}

/// Relies on `String::push`: appends the given character to the end of the
/// string.
#[verifier::external_body]
pub fn push_char(s: &mut String, c: char)
    ensures
        final(s)@ == old(s)@ + seq![c],
{
    s.push(c)
}

/// Whether a text is free of raw angle brackets.
pub open spec fn no_angles(s: Seq<char>) -> bool {
    forall|j: int| 0 <= j < s.len() ==> s[j] != '<' && s[j] != '>'
}

/// Escaping leaves no raw angle bracket behind.
pub proof fn lemma_escaped_no_angles(s: Seq<char>)
    ensures
        no_angles(escaped(s)),
    decreases s.len(),
{
    reveal_strlit("&lt;");
    reveal_strlit("&gt;");
    if s.len() > 0 {
        lemma_escaped_no_angles(s.skip(1));
        assert(no_angles(escaped_char(s[0])));
        assert forall|j: int| 0 <= j < escaped(s).len() implies escaped(s)[j] != '<' && escaped(
            s,
        )[j] != '>' by {
            let head = escaped_char(s[0]);
            if j < head.len() {
                assert(escaped(s)[j] == head[j]);
            } else {
                assert(escaped(s)[j] == escaped(s.skip(1))[j - head.len()]);
            }
        }
    }
}

/// Escaping distributes over appending one character at the end.
proof fn lemma_escaped_snoc(s: Seq<char>, c: char)
    ensures
        escaped(s.push(c)) == escaped(s) + escaped_char(c),
    decreases s.len(),
{
    if s.len() == 0 {
        assert(s.push(c).skip(1) =~= Seq::<char>::empty());
        assert(escaped(Seq::<char>::empty()) == Seq::<char>::empty());
        assert(s.push(c)[0] == c);
        assert(escaped(s.push(c)) == escaped_char(c) + Seq::<char>::empty());
        assert(escaped(s.push(c)) =~= escaped(s) + escaped_char(c));
    } else {
        assert(s.push(c).skip(1) =~= s.skip(1).push(c));
        lemma_escaped_snoc(s.skip(1), c);
        assert(escaped(s.push(c)) =~= escaped(s) + escaped_char(c));
    }
}

/// The decoded characters of a string, as a vector.
pub fn chars_of(s: &str) -> (v: Vec<char>)
    ensures
        v@ == s@,
{
    let n = s.unicode_len();
    let mut v: Vec<char> = Vec::new();
    let mut k: usize = 0;
    proof {
        assert(v@ =~= s@.take(0));
    }
    while k < n
        invariant
            k <= n,
            n == s@.len(),
            v@ == s@.take(k as int),
        decreases n - k,
    {
        let c = s.get_char(k);
        v.push(c);
        proof {
            assert(v@ =~= s@.take(k + 1 as int));
        }
        k = k + 1;
    }
    proof {
        assert(v@ =~= s@);
    }
    v
}

/// The input with `<` and `>` escaped to `&lt;` and `&gt;`.
pub fn escape_angles(s: &str) -> (r: String)
    ensures
        r@ == escaped(s@),
{
    let n = s.unicode_len();
    let mut r = String::new();
    let mut k: usize = 0;
    proof {
        assert(s@.take(0) =~= Seq::<char>::empty());
    }
    while k < n
        invariant
            k <= n,
            n == s@.len(),
            r@ == escaped(s@.take(k as int)),
        decreases n - k,
    {
        let c = s.get_char(k);
        if c == '<' {
            r.append("&lt;");
        } else if c == '>' {
            r.append("&gt;");
        } else {
            push_char(&mut r, c);
        }
        proof {
            assert(s@.take(k + 1 as int) =~= s@.take(k as int).push(s@[k as int]));
            lemma_escaped_snoc(s@.take(k as int), s@[k as int]);
        }
        k = k + 1;
    }
    proof {
        assert(s@.take(n as int) =~= s@);
    }
    r
}

/// The space-to-hyphen rewriting of the input.
pub fn dash_spaces(s: &str) -> (r: String)
    ensures
        r@ == dashed(s@),
{
    let n = s.unicode_len();
    let mut r = String::new();
    let mut k: usize = 0;
    proof {
        assert(r@ =~= dashed(s@.take(0)));
    }
    while k < n
        invariant
            k <= n,
            n == s@.len(),
            r@ == dashed(s@.take(k as int)),
        decreases n - k,
    {
        let c = s.get_char(k);
        if c == ' ' {
            push_char(&mut r, '-');
        } else {
            push_char(&mut r, c);
        }
        proof {
            assert(r@ =~= dashed(s@.take(k + 1 as int)));
        }
        k = k + 1;
    }
    proof {
        assert(s@.take(n as int) =~= s@);
    }
    r
}

} // verus!
