//! White space, trimming, and the characters of a string.
use vstd::prelude::*;

verus! {

broadcast use vstd::string::group_string_axioms;

/// The Unicode `White_Space` property, which is what Rust's
/// `char::is_whitespace` tests.
pub open spec fn spec_is_whitespace(c: char) -> bool {
    let u = c as u32;
    ||| 0x09 <= u <= 0x0d
    ||| u == 0x20
    ||| u == 0x85
    ||| u == 0xa0
    ||| u == 0x1680
    ||| 0x2000 <= u <= 0x200a
    ||| u == 0x2028
    ||| u == 0x2029
    ||| u == 0x202f
    ||| u == 0x205f
    ||| u == 0x3000
}

/// Whether `c` is a Unicode white-space character.
pub fn is_whitespace(c: char) -> (r: bool)
    ensures
        r == spec_is_whitespace(c),
{
    let u = c as u32;
    (0x09 <= u && u <= 0x0d) || u == 0x20 || u == 0x85 || u == 0xa0 || u == 0x1680 || (0x2000
        <= u && u <= 0x200a) || u == 0x2028 || u == 0x2029 || u == 0x202f || u == 0x205f || u
        == 0x3000
}

/// A text is blank when it holds nothing but white space (what trimming
/// it would leave is empty).
pub open spec fn is_blank(s: Seq<char>) -> bool {
    forall|i: int| 0 <= i < s.len() ==> spec_is_whitespace(#[trigger] s[i])
}

/// The characters of `s`, one by one.
pub fn chars_of(s: &str) -> (v: Vec<char>)
    ensures
        v@ == s@,
{
    let mut v: Vec<char> = Vec::new();
    for c in it: s.chars()
        invariant
            it.seq() == s@,
            v@ == it.seq().take(it.index()),
    {
        v.push(c);
    }
    v
}

/// `String::push`: the character is added at the end.
#[verifier::external_body]
pub(crate) fn push_char(s: &mut String, c: char)
    ensures
        final(s)@ == old(s)@.push(c),
{
    s.push(c);
}

/// The characters `cs[from..to]` gathered into a `String`.
pub fn string_from_chars(cs: &Vec<char>, from: usize, to: usize) -> (r: String)
    requires
        from <= to <= cs@.len(),
    ensures
        r@ == cs@.subrange(from as int, to as int),
{
    let mut r = String::new();
    let mut i = from;
    while i < to
        invariant
            from <= i <= to <= cs@.len(),
            r@ == cs@.subrange(from as int, i as int),
        decreases to - i,
    {
        push_char(&mut r, cs[i]);
        assert(cs@.subrange(from as int, i + 1) =~= cs@.subrange(from as int, i as int).push(cs@[i as int]));
        i += 1;
    }
    r
}

/// Whether `text` holds nothing but white space.
pub fn is_blank_text(text: &str) -> (r: bool)
    ensures
        r == is_blank(text@),
{
    let cs = chars_of(text);
    let mut i: usize = 0;
    while i < cs.len()
        invariant
            cs@ == text@,
            i <= cs@.len(),
            forall|j: int| 0 <= j < i ==> spec_is_whitespace(#[trigger] cs@[j]),
        decreases cs.len() - i,
    {
        if !is_whitespace(cs[i]) {
            return false;
        }
        i += 1;
    }
    true
}

/// Adding a character keeps a text blank exactly when it is white space.
pub proof fn lemma_blank_push(x: Seq<char>, c: char)
    ensures
        is_blank(x.push(c)) == (is_blank(x) && spec_is_whitespace(c)),
{
    assert(x.push(c)[x.len() as int] == c);
    if is_blank(x) && spec_is_whitespace(c) {
        assert forall|i: int| 0 <= i < x.push(c).len() implies spec_is_whitespace(
            #[trigger] x.push(c)[i],
        ) by {
            if i < x.len() {
                assert(x.push(c)[i] == x[i]);
            }
        }
    }
    if is_blank(x.push(c)) {
        assert forall|i: int| 0 <= i < x.len() implies spec_is_whitespace(#[trigger] x[i]) by {
            assert(x.push(c)[i] == x[i]);
        }
    }
}

/// `s` with its white space left out.
pub open spec fn visible(s: Seq<char>) -> Seq<char>
    decreases s.len(),
{
    if s.len() == 0 {
        s
    } else if spec_is_whitespace(s.last()) {
        visible(s.drop_last())
    } else {
        visible(s.drop_last()).push(s.last())
    }
}

pub proof fn lemma_visible_concat(a: Seq<char>, b: Seq<char>)
    ensures
        visible(a + b) == visible(a) + visible(b),
    decreases b.len(),
{
    if b.len() == 0 {
        assert(a + b =~= a);
        assert(visible(a) + visible(b) =~= visible(a));
    } else {
        assert((a + b).drop_last() =~= a + b.drop_last());
        assert((a + b).last() == b.last());
        lemma_visible_concat(a, b.drop_last());
        if !spec_is_whitespace(b.last()) {
            assert(visible(a) + visible(b.drop_last()).push(b.last()) =~= (visible(a) + visible(
                b.drop_last(),
            )).push(b.last()));
        }
    }
}

/// Leaving out the white space leaves nothing exactly when the text is blank.
pub proof fn lemma_visible_empty(s: Seq<char>)
    ensures
        (visible(s).len() == 0) == is_blank(s),
    decreases s.len(),
{
    if s.len() > 0 {
        let x = s.drop_last();
        assert(s =~= x.push(s.last()));
        lemma_blank_push(x, s.last());
        lemma_visible_empty(x);
    }
}

/// `s` without its leading white space (`str::trim_start`).
pub open spec fn trim_start(s: Seq<char>) -> Seq<char>
    decreases s.len(),
{
    if s.len() > 0 && spec_is_whitespace(s[0]) {
        trim_start(s.drop_first())
    } else {
        s
    }
}

/// `s` without its trailing white space (`str::trim_end`).
pub open spec fn trim_end(s: Seq<char>) -> Seq<char>
    decreases s.len(),
{
    if s.len() > 0 && spec_is_whitespace(s.last()) {
        trim_end(s.drop_last())
    } else {
        s
    }
}

/// `s` without leading and trailing white space (`str::trim`).
pub open spec fn trim(s: Seq<char>) -> Seq<char> {
    trim_end(trim_start(s))
}

proof fn lemma_trim_start(s: Seq<char>) -> (k: int)
    ensures
        0 <= k <= s.len(),
        trim_start(s) == s.skip(k),
        is_blank(s.take(k)),
        k < s.len() ==> !spec_is_whitespace(s[k]),
    decreases s.len(),
{
    if s.len() > 0 && spec_is_whitespace(s[0]) {
        let t = s.drop_first();
        let j = lemma_trim_start(t);
        assert(t.skip(j) =~= s.skip(j + 1));
        assert forall|i: int| 0 <= i < s.take(j + 1).len() implies spec_is_whitespace(
            #[trigger] s.take(j + 1)[i],
        ) by {
            if i > 0 {
                assert(s.take(j + 1)[i] == t.take(j)[i - 1]);
            }
        }
        if j + 1 < s.len() {
            assert(s[j + 1] == t[j]);
        }
        j + 1
    } else {
        assert(s.skip(0) =~= s);
        0
    }
}

proof fn lemma_trim_end(s: Seq<char>) -> (k: int)
    ensures
        0 <= k <= s.len(),
        trim_end(s) == s.take(k),
        is_blank(s.skip(k)),
        k > 0 ==> !spec_is_whitespace(s[k - 1]),
    decreases s.len(),
{
    if s.len() > 0 && spec_is_whitespace(s.last()) {
        let t = s.drop_last();
        let j = lemma_trim_end(t);
        assert(t.take(j) =~= s.take(j));
        assert forall|i: int| 0 <= i < s.skip(j).len() implies spec_is_whitespace(
            #[trigger] s.skip(j)[i],
        ) by {
            if j + i < t.len() {
                assert(s.skip(j)[i] == t.skip(j)[i]);
            }
        }
        if j > 0 {
            assert(s[j - 1] == t[j - 1]);
        }
        j
    } else {
        assert(s.take(s.len() as int) =~= s);
        assert(s.skip(s.len() as int) =~= Seq::<char>::empty());
        s.len() as int
    }
}

/// Trimming drops nothing but white space at the two ends: what is left
/// starts and ends with a visible character, keeps every visible
/// character, and is empty exactly when the text is blank.
pub proof fn lemma_trim(s: Seq<char>)
    ensures
        visible(trim(s)) == visible(s),
        (trim(s).len() == 0) == is_blank(s),
        trim(s).len() > 0 ==> !spec_is_whitespace(trim(s)[0]) && !spec_is_whitespace(
            trim(s).last(),
        ),
{
    lemma_trim_is_part(s);
}

/// Trimming keeps one contiguous stretch of the text, and only white space
/// lies before and after it.
pub proof fn lemma_trim_is_part(s: Seq<char>) -> (start: int)
    ensures
        0 <= start <= start + trim(s).len() <= s.len(),
        s.subrange(start, start + trim(s).len()) == trim(s),
        is_blank(s.take(start)),
        is_blank(s.skip(start + trim(s).len())),
        visible(trim(s)) == visible(s),
        (trim(s).len() == 0) == is_blank(s),
        trim(s).len() > 0 ==> !spec_is_whitespace(trim(s)[0]) && !spec_is_whitespace(
            trim(s).last(),
        ),
{
    let a = lemma_trim_start(s);
    let u = s.skip(a);
    let b = lemma_trim_end(u);
    assert(s =~= s.take(a) + u);
    lemma_visible_concat(s.take(a), u);
    lemma_visible_empty(s.take(a));
    assert(u =~= u.take(b) + u.skip(b));
    lemma_visible_concat(u.take(b), u.skip(b));
    lemma_visible_empty(u.skip(b));
    assert(visible(s.take(a)) + visible(u) =~= visible(u));
    assert(visible(u.take(b)) + visible(u.skip(b)) =~= visible(u.take(b)));
    lemma_visible_empty(s);
    lemma_visible_empty(trim(s));
    if trim(s).len() > 0 {
        assert(trim(s)[0] == s[a]);
        assert(trim(s).last() == u[b - 1]);
    }
    assert(trim(s) == u.take(b));
    assert(s.subrange(a, a + b) =~= u.take(b));
    assert(s.skip(a + b) =~= u.skip(b));
    a
}

/// Where the trimmed text starts and ends in `cs`.
pub fn trim_bounds(cs: &Vec<char>) -> (r: (usize, usize))
    ensures
        r.0 <= r.1 <= cs@.len(),
        cs@.subrange(r.0 as int, r.1 as int) == trim(cs@),
{
    let ghost s = cs@;
    let n = cs.len();
    let mut a: usize = 0;
    assert(s.skip(0) =~= s);
    while a < n && is_whitespace(cs[a])
        invariant
            cs@ == s,
            n == s.len(),
            a <= n,
            trim_start(s) == trim_start(s.skip(a as int)),
        decreases n - a,
    {
        assert(s.skip(a as int)[0] == s[a as int]);
        assert(s.skip(a as int).drop_first() =~= s.skip(a + 1));
        a += 1;
    }
    if a < n {
        assert(s.skip(a as int)[0] == s[a as int]);
    } else {
        assert(s.skip(a as int) =~= Seq::<char>::empty());
    }
    assert(trim_start(s) == s.skip(a as int));
    let mut b: usize = n;
    assert(s.skip(a as int) =~= s.subrange(a as int, n as int));
    while b > a && is_whitespace(cs[b - 1])
        invariant
            cs@ == s,
            n == s.len(),
            a <= b <= n,
            trim(s) == trim_end(s.subrange(a as int, b as int)),
        decreases b - a,
    {
        assert(s.subrange(a as int, b as int).last() == s[b - 1]);
        assert(s.subrange(a as int, b as int).drop_last() =~= s.subrange(a as int, b - 1));
        b -= 1;
    }
    if b > a {
        assert(s.subrange(a as int, b as int).last() == s[b - 1]);
    }
    (a, b)
}

/// `text` without leading and trailing white space.
pub fn trim_text(text: &str) -> (r: String)
    ensures
        r@ == trim(text@),
{
    let cs = chars_of(text);
    let (a, b) = trim_bounds(&cs);
    string_from_chars(&cs, a, b)
}

} // verus!
