use vstd::prelude::*;

verus! {

broadcast use vstd::string::group_string_axioms;

/// `c` has the Unicode `White_Space` property (what `char::is_whitespace`
/// and `str::trim` go by).
pub open spec fn is_space_char(c: char) -> bool {
    let u = c as u32;
    ||| 0x09 <= u <= 0x0d
    ||| u == 0x20
    ||| u == 0x85
    ||| u == 0xa0
    ||| u == 0x1680
    ||| 0x2000 <= u <= 0x200a
    ||| u == 0x2028
    ||| u == 0x2029
    ||| u == 0x202f
    ||| u == 0x205f
    ||| u == 0x3000
}

/// Executable form of [`is_space_char`].
pub fn is_space(c: char) -> (r: bool)
    ensures
        r == is_space_char(c),
{
    let u = c as u32;
    (0x09 <= u && u <= 0x0d) || u == 0x20 || u == 0x85 || u == 0xa0 || u == 0x1680 || (0x2000
        <= u && u <= 0x200a) || u == 0x2028 || u == 0x2029 || u == 0x202f || u == 0x205f || u
        == 0x3000
}

/// The characters of a string slice, in order.
pub fn chars_of(s: &str) -> (v: Vec<char>)
    ensures
        v@ == s@,
{
    let mut v: Vec<char> = Vec::new();
    for c in it: s.chars()
        invariant
            v@ == it.seq().take(it.index() as int),
            it.seq() == s@,
    {
        v.push(c);
    }
    v
}

/// `s` without its leading white space.
pub open spec fn trim_start(s: Seq<char>) -> Seq<char>
    decreases s.len(),
{
    if s.len() > 0 && is_space_char(s[0]) {
        trim_start(s.drop_first())
    } else {
        s
    }
}

/// `s` without its trailing white space.
pub open spec fn trim_end(s: Seq<char>) -> Seq<char>
    decreases s.len(),
{
    if s.len() > 0 && is_space_char(s.last()) {
        trim_end(s.drop_last())
    } else {
        s
    }
}

/// `s` without leading and trailing white space, as `str::trim` gives it.
pub open spec fn trim(s: Seq<char>) -> Seq<char> {
    trim_end(trim_start(s))
}

/// `trim_start(s)` drops the leading white space of `s`: it is `s` from the
/// returned position on, and the character there is no white space.
pub proof fn lemma_trim_start(s: Seq<char>) -> (k: int)
    ensures
        0 <= k <= s.len(),
        trim_start(s) == s.subrange(k, s.len() as int),
        k < s.len() ==> !is_space_char(s[k]),
        forall|i: int| 0 <= i < k ==> is_space_char(#[trigger] s[i]),
    decreases s.len(),
{
    if s.len() > 0 && is_space_char(s[0]) {
        let k1 = lemma_trim_start(s.drop_first());
        assert(s.drop_first().subrange(k1, s.len() - 1) =~= s.subrange(k1 + 1, s.len() as int));
        assert forall|i: int| 0 <= i < k1 + 1 implies is_space_char(#[trigger] s[i]) by {
            if i > 0 {
                assert(s[i] == s.drop_first()[i - 1]);
            }
        }
        k1 + 1
    } else {
        assert(s.subrange(0, s.len() as int) =~= s);
        0
    }
}

/// `trim_end(s)` drops the trailing white space of `s`: it is `s` up to
/// the returned position, and the character before it is no white space.
pub proof fn lemma_trim_end(s: Seq<char>) -> (k: int)
    ensures
        0 <= k <= s.len(),
        trim_end(s) == s.subrange(0, k),
        k > 0 ==> !is_space_char(s[k - 1]),
        forall|i: int| k <= i < s.len() ==> is_space_char(#[trigger] s[i]),
    decreases s.len(),
{
    if s.len() > 0 && is_space_char(s.last()) {
        let k1 = lemma_trim_end(s.drop_last());
        assert(s.drop_last().subrange(0, k1) =~= s.subrange(0, k1));
        assert forall|i: int| k1 <= i < s.len() implies is_space_char(#[trigger] s[i]) by {
            if i < s.len() - 1 {
                assert(s[i] == s.drop_last()[i]);
            }
        }
        k1
    } else {
        assert(s.subrange(0, s.len() as int) =~= s);
        s.len() as int
    }
}

/// `trim(s)` is a stretch of `s` that neither starts nor ends with white
/// space, and only white space surrounds it.
pub proof fn lemma_trim(s: Seq<char>) -> (r: (int, int))
    ensures
        0 <= r.0 <= r.1 <= s.len(),
        trim(s) == s.subrange(r.0, r.1),
        r.0 < r.1 ==> !is_space_char(s[r.0]) && !is_space_char(s[r.1 - 1]),
        forall|i: int| 0 <= i < r.0 ==> is_space_char(#[trigger] s[i]),
        forall|i: int| r.1 <= i < s.len() ==> is_space_char(#[trigger] s[i]),
{
    let a = lemma_trim_start(s);
    let u = s.subrange(a, s.len() as int);
    let b = lemma_trim_end(u);
    assert(u.subrange(0, b) =~= s.subrange(a, a + b));
    assert forall|i: int| a + b <= i < s.len() implies is_space_char(#[trigger] s[i]) by {
        assert(s[i] == u[i - a]);
    }
    if b > 0 {
        assert(s[a + b - 1] == u[b - 1]);
    }
    (a, a + b)
}

/// Trimming twice trims no more than trimming once.
pub proof fn lemma_trim_idempotent(s: Seq<char>)
    ensures
        trim(trim(s)) == trim(s),
{
    let (a, b) = lemma_trim(s);
    let t = trim(s);
    let (c, d) = lemma_trim(t);
    if c > 0 {
        assert(is_space_char(t[0]));
        assert(t[0] == s[a]);
    }
    if d < t.len() {
        assert(is_space_char(t[t.len() - 1]));
        assert(t[t.len() - 1] == s[b - 1]);
    }
    assert(t.subrange(c, d) =~= t);
}

/// Every character of `s` is white space.
pub open spec fn all_space(s: Seq<char>) -> bool {
    forall|i: int| 0 <= i < s.len() ==> is_space_char(#[trigger] s[i])
}

/// What `trim` takes from `p + m + q`, where `p` and `q` are white space
/// and `m` neither starts nor ends with white space, is `m`.
pub proof fn lemma_trim_of_padded(p: Seq<char>, m: Seq<char>, q: Seq<char>)
    requires
        all_space(p),
        all_space(q),
        m.len() > 0 ==> !is_space_char(m[0]) && !is_space_char(m.last()),
    ensures
        trim(p + m + q) == m,
{
    let x = p + m + q;
    let (a, b) = lemma_trim(x);
    if m.len() > 0 {
        assert(x[p.len() as int] == m[0]);
        assert(x[p.len() + m.len() - 1] == m.last());
        if a > p.len() {
            assert(is_space_char(x[p.len() as int]));
        }
        if a < p.len() {
            assert(x[a] == p[a]);
            assert(a < b);
        }
        if b < p.len() + m.len() {
            assert(is_space_char(x[p.len() + m.len() - 1]));
        }
        if b > p.len() + m.len() {
            assert(x[b - 1] == q[b - 1 - p.len() - m.len()]);
        }
        assert(x.subrange(a, b) =~= m);
    } else {
        if a < b {
            if a < p.len() {
                assert(x[a] == p[a]);
            } else {
                assert(x[a] == q[a - p.len()]);
            }
        }
        assert(x.subrange(a, b) =~= m);
    }
}

/// White space around a text does not change its trim.
pub proof fn lemma_trim_padded(p: Seq<char>, e: Seq<char>, q: Seq<char>)
    requires
        all_space(p),
        all_space(q),
    ensures
        trim(p + e + q) == trim(e),
{
    let (a, b) = lemma_trim(e);
    let e1 = e.subrange(0, a);
    let m = e.subrange(a, b);
    let e2 = e.subrange(b, e.len() as int);
    assert(e =~= e1 + m + e2);
    assert(all_space(p + e1)) by {
        assert forall|i: int| 0 <= i < (p + e1).len() implies is_space_char(#[trigger] (p + e1)[i]) by {
            if i >= p.len() {
                assert((p + e1)[i] == e[i - p.len()]);
            }
        }
    }
    assert(all_space(e2 + q)) by {
        assert forall|i: int| 0 <= i < (e2 + q).len() implies is_space_char(#[trigger] (e2 + q)[i]) by {
            if i < e2.len() {
                assert((e2 + q)[i] == e[b + i]);
            }
        }
    }
    if m.len() > 0 {
        assert(m[0] == e[a]);
        assert(m.last() == e[b - 1]);
    }
    lemma_trim_of_padded(p + e1, m, e2 + q);
    assert(p + e + q =~= (p + e1) + m + (e2 + q));
}

/// `s` is its trim with white space around it.
pub proof fn lemma_trim_split(s: Seq<char>) -> (r: (Seq<char>, Seq<char>))
    ensures
        all_space(r.0),
        all_space(r.1),
        s == r.0 + trim(s) + r.1,
{
    let (a, b) = lemma_trim(s);
    let p = s.subrange(0, a);
    let q = s.subrange(b, s.len() as int);
    assert(s =~= p + trim(s) + q);
    assert(all_space(p)) by {
        assert forall|i: int| 0 <= i < p.len() implies is_space_char(#[trigger] p[i]) by {
            assert(p[i] == s[i]);
        }
    }
    assert(all_space(q)) by {
        assert forall|i: int| 0 <= i < q.len() implies is_space_char(#[trigger] q[i]) by {
            assert(q[i] == s[b + i]);
        }
    }
    (p, q)
}

/// The characters that `str::trim` takes off the ends of a text are the
/// Unicode `White_Space` characters: tab, line feed, vertical tab, form
/// feed, carriage return, space, next line, no-break space, ogham space
/// mark, the spaces U+2000 to U+200A, line and paragraph separators, narrow
/// no-break space, medium mathematical space and ideographic space. Trimming
/// a single character removes it exactly when it is one of these.
pub proof fn lemma_trim_removes_white_space(c: char)
    ensures
        (trim(seq![c]) == Seq::<char>::empty()) <==> (c == '\t' || c == '\n' || c == '\u{0b}' || c
            == '\u{0c}' || c == '\r' || c == ' ' || c == '\u{85}' || c == '\u{a0}' || c
            == '\u{1680}' || ('\u{2000}' <= c && c <= '\u{200a}') || c == '\u{2028}' || c
            == '\u{2029}' || c == '\u{202f}' || c == '\u{205f}' || c == '\u{3000}'),
        trim(seq![c]) != Seq::<char>::empty() ==> trim(seq![c]) == seq![c],
{
    let s = seq![c];
    assert(s.drop_first() =~= Seq::<char>::empty());
    assert(s.drop_last() =~= Seq::<char>::empty());
    assert(s.last() == c);
    assert(trim_start(Seq::<char>::empty()) == Seq::<char>::empty());
    assert(trim_end(Seq::<char>::empty()) == Seq::<char>::empty());
}

/// A white-space character at either end of a text does not change its trim.
pub proof fn lemma_trim_ignores_white_space_at_ends(c: char, s: Seq<char>, d: char)
    requires
        trim(seq![c]) == Seq::<char>::empty(),
        trim(seq![d]) == Seq::<char>::empty(),
    ensures
        trim(seq![c] + s) == trim(s),
        trim(s + seq![d]) == trim(s),
        trim(seq![c] + s + seq![d]) == trim(s),
{
    lemma_trim_removes_white_space(c);
    lemma_trim_removes_white_space(d);
    let e = Seq::<char>::empty();
    assert(all_space(seq![c]));
    assert(all_space(seq![d]));
    assert(all_space(e));
    lemma_trim_padded(seq![c], s, e);
    assert(seq![c] + s + e =~= seq![c] + s);
    lemma_trim_padded(e, s, seq![d]);
    assert(e + s + seq![d] =~= s + seq![d]);
    lemma_trim_padded(seq![c], s, seq![d]);
}

/// Every character of `trim(s)` is a character of `s`.
pub proof fn lemma_trim_chars(s: Seq<char>, c: char)
    ensures
        trim(s).contains(c) ==> s.contains(c),
{
    let (a, b) = lemma_trim(s);
    if trim(s).contains(c) {
        let i = choose|i: int| 0 <= i < trim(s).len() && trim(s)[i] == c;
        assert(s[a + i] == c);
    }
}

/// Calls `String::push`, whose contract here is taken on trust: the
/// characters of `s` afterwards are those before, followed by `c`.
#[verifier::external_body]
fn push_char(s: &mut String, c: char)
    ensures
        final(s)@ == old(s)@.push(c),
{
    s.push(c)
}

/// The string made of the characters `v`.
pub fn string_of(v: &[char]) -> (s: String)
    ensures
        s@ == v@,
{
    let mut s = String::new();
    let n = v.len();
    for i in 0..n
        invariant
            n == v@.len(),
            s@ == v@.take(i as int),
    {
        push_char(&mut s, v[i]);
        assert(v@.take(i + 1) =~= v@.take(i as int).push(v@[i as int]));
    }
    assert(v@.take(n as int) =~= v@);
    s
}

/// Appends the characters of `lit` to `out`.
pub fn push_str(out: &mut Vec<char>, lit: &str)
    ensures
        final(out)@ == old(out)@ + lit@,
{
    let l = chars_of(lit);
    push_chars(out, l.as_slice());
}

/// Appends `v` to `out`.
pub fn push_chars(out: &mut Vec<char>, v: &[char])
    ensures
        final(out)@ == old(out)@ + v@,
{
    let ghost start = out@;
    let n = v.len();
    for i in 0..n
        invariant
            n == v@.len(),
            out@ == start + v@.take(i as int),
    {
        out.push(v[i]);
        assert(start + v@.take(i + 1) =~= (start + v@.take(i as int)).push(v@[i as int]));
    }
    assert(v@.take(n as int) =~= v@);
}

/// The characters `v[from..to]`.
pub fn copy_range(v: &[char], from: usize, to: usize) -> (r: Vec<char>)
    requires
        from <= to <= v@.len(),
    ensures
        r@ == v@.subrange(from as int, to as int),
{
    let mut r: Vec<char> = Vec::new();
    let mut i = from;
    while i < to
        invariant
            from <= i <= to <= v@.len(),
            r@ == v@.subrange(from as int, i as int),
        decreases to - i,
    {
        r.push(v[i]);
        assert(v@.subrange(from as int, i + 1) =~= v@.subrange(from as int, i as int).push(v@[i as int]));
        i = i + 1;
    }
    r
}

/// `v` without leading and trailing white space.
pub fn trim_chars(v: &[char]) -> (r: Vec<char>)
    ensures
        r@ == trim(v@),
{
    let n = v.len();
    let mut i: usize = 0;
    assert(v@.subrange(0, n as int) =~= v@);
    while i < n && is_space(v[i])
        invariant
            i <= n == v@.len(),
            trim_start(v@) == trim_start(v@.subrange(i as int, n as int)),
        decreases n - i,
    {
        assert(v@.subrange(i as int, n as int).drop_first() =~= v@.subrange(i + 1, n as int));
        i = i + 1;
    }
    assert(trim_start(v@) == v@.subrange(i as int, n as int));
    let mut j: usize = n;
    while j > i && is_space(v[j - 1])
        invariant
            i <= j <= n == v@.len(),
            trim(v@) == trim_end(v@.subrange(i as int, j as int)),
        decreases j,
    {
        assert(v@.subrange(i as int, j as int).drop_last() =~= v@.subrange(i as int, j - 1));
        j = j - 1;
    }
    copy_range(v, i, j)
}

/// Whether `s` holds the character `c`.
pub fn contains_char(s: &str, c: char) -> (r: bool)
    ensures
        r == s@.contains(c),
{
    let v = chars_of(s);
    let n = v.len();
    for i in 0..n
        invariant
            n == v@.len(),
            v@ == s@,
            forall|k: int| 0 <= k < i ==> v@[k] != c,
    {
        if v[i] == c {
            assert(s@[i as int] == c);
            return true;
        }
    }
    false
}

/// The string `s` without leading and trailing white space.
pub fn trim_string(s: &str) -> (r: String)
    ensures
        r@ == trim(s@),
{
    let v = chars_of(s);
    let t = trim_chars(v.as_slice());
    string_of(t.as_slice())
}

} // verus!
