use vstd::prelude::*;

use crate::text::{trim, trim_end, trim_start};
use crate::token_parser::{
    after_tokens, field_order, field_value, fields_text, is_key_char, is_other_space, key_end,
    keeps_order, lemma_key_end, lemma_parse_fields, lemma_spaces_end, lemma_value_end,
    parse_fields, parse_tokens, printed_keys, reordered, skip_if, spaces_end, token_text,
    tokens_text, value_end, OrderKind, TokenView,
};

verus! {

// Reordering is idempotent: the printed token list parses back into the
// tokens it printed, and printing those again gives the same text. The
// proof goes through the printed form of each token: its name, and the
// fields that get printed, each with the value that gets printed.

/// Every character of `w` may stand in a name or a key.
pub open spec fn key_word(w: Seq<char>) -> bool {
    forall|i: int| 0 <= i < w.len() ==> is_key_char(#[trigger] w[i])
}

/// `v` can stand between the quotes of a value: every `\` escapes a
/// following character, and every `"` is escaped.
pub open spec fn escaped(v: Seq<char>) -> bool
    decreases v.len(),
{
    if v.len() == 0 {
        true
    } else if v[0] == '"' {
        false
    } else if v[0] == '\\' {
        v.len() >= 2 && escaped(v.subrange(2, v.len() as int))
    } else {
        escaped(v.drop_first())
    }
}

/// A token as the parser gives them: a name and keys made of key
/// characters, escaped values, as many values as keys.
pub open spec fn well_formed(t: TokenView) -> bool {
    &&& key_word(t.name)
    &&& t.keys.len() == t.values.len()
    &&& forall|i: int| 0 <= i < t.keys.len() ==> key_word(#[trigger] t.keys[i])
    &&& forall|i: int| 0 <= i < t.values.len() ==> escaped(#[trigger] t.values[i])
}

/// ` key: "value"`.
pub open spec fn one_field(k: Seq<char>, v: Seq<char>) -> Seq<char> {
    " "@ + k + ": \""@ + v + "\""@
}

/// The fields `ks`, `vs`, printed one after the other.
pub open spec fn field_list_text(ks: Seq<Seq<char>>, vs: Seq<Seq<char>>) -> Seq<char>
    decreases ks.len(),
{
    if ks.len() == 0 || vs.len() == 0 {
        Seq::empty()
    } else {
        field_list_text(ks.drop_last(), vs.drop_last()) + one_field(ks.last(), vs.last())
    }
}

/// The fields of `t` that get printed for `keys`, with their printed values.
pub open spec fn printed_fields(t: TokenView, keys: Seq<Seq<char>>) -> (Seq<Seq<char>>, Seq<Seq<char>>)
    decreases keys.len(),
{
    if keys.len() == 0 {
        (Seq::empty(), Seq::empty())
    } else {
        let (ks, vs) = printed_fields(t, keys.drop_last());
        match field_value(t.keys, t.values, keys.last()) {
            Some(v) => (ks.push(keys.last()), vs.push(v)),
            None => (ks, vs),
        }
    }
}

/// The token that printing `t` shows.
pub open spec fn printed_token(kind: OrderKind, t: TokenView) -> TokenView {
    let (ks, vs) = printed_fields(t, printed_keys(kind, t));
    TokenView { name: t.name, keys: ks, values: vs }
}

/// The text of a token in printed form.
pub open spec fn text_of(t: TokenView) -> Seq<char> {
    t.name + " {"@ + field_list_text(t.keys, t.values) + " }"@
}

/// Tokens in printed form, each printed after a space.
pub open spec fn spaced_texts(ts: Seq<TokenView>) -> Seq<char>
    decreases ts.len(),
{
    if ts.len() == 0 {
        Seq::empty()
    } else {
        " "@ + text_of(ts[0]) + spaced_texts(ts.drop_first())
    }
}

// ---------------------------------------------------------------------
// Field values.

proof fn lemma_field_value_found(ks: Seq<Seq<char>>, vs: Seq<Seq<char>>, k: Seq<char>) -> (i: int)
    requires
        field_value(ks, vs, k) is Some,
        ks.len() == vs.len(),
    ensures
        0 <= i < ks.len(),
        i < vs.len(),
        ks[i] == k,
        field_value(ks, vs, k) == Some(vs[i]),
    decreases ks.len(),
{
    if ks.last() == k {
        (ks.len() - 1) as int
    } else {
        let i = lemma_field_value_found(ks.drop_last(), vs.drop_last(), k);
        i
    }
}

proof fn lemma_field_value_present(ks: Seq<Seq<char>>, vs: Seq<Seq<char>>, k: Seq<char>)
    requires
        ks.len() == vs.len(),
        ks.contains(k),
    ensures
        field_value(ks, vs, k) is Some,
    decreases ks.len(),
{
    if ks.last() != k {
        let i = choose|i: int| 0 <= i < ks.len() && ks[i] == k;
        assert(ks.drop_last()[i] == k);
        lemma_field_value_present(ks.drop_last(), vs.drop_last(), k);
    }
}

/// In the printed fields for `keys`, a key of `keys` has the value it has
/// in `t`, and a key not in `keys` has none.
proof fn lemma_printed_field_value(t: TokenView, keys: Seq<Seq<char>>, k: Seq<char>)
    ensures
        printed_fields(t, keys).0.len() == printed_fields(t, keys).1.len(),
        field_value(printed_fields(t, keys).0, printed_fields(t, keys).1, k) == if keys.contains(k) {
            field_value(t.keys, t.values, k)
        } else {
            None
        },
    decreases keys.len(),
{
    if keys.len() > 0 {
        let kl = keys.last();
        let rest = keys.drop_last();
        lemma_printed_field_value(t, rest, k);
        let (ks, vs) = printed_fields(t, rest);
        assert(keys.contains(k) == (rest.contains(k) || kl == k)) by {
            if keys.contains(k) && kl != k {
                let i = choose|i: int| 0 <= i < keys.len() && keys[i] == k;
                assert(rest[i] == k);
            }
            if rest.contains(k) {
                let i = choose|i: int| 0 <= i < rest.len() && rest[i] == k;
                assert(keys[i] == k);
            }
        }
        if let Some(v) = field_value(t.keys, t.values, kl) {
            assert(ks.push(kl).drop_last() =~= ks);
            assert(vs.push(v).drop_last() =~= vs);
        }
    }
}

/// The printed fields of keys that `t` all has are those keys.
proof fn lemma_printed_keys_all_present(t: TokenView, keys: Seq<Seq<char>>)
    requires
        forall|i: int| 0 <= i < keys.len() ==> field_value(t.keys, t.values, #[trigger] keys[i]) is Some,
    ensures
        printed_fields(t, keys).0 == keys,
    decreases keys.len(),
{
    if keys.len() > 0 {
        let rest = keys.drop_last();
        assert forall|i: int| 0 <= i < rest.len() implies field_value(
            t.keys,
            t.values,
            #[trigger] rest[i],
        ) is Some by {
            assert(rest[i] == keys[i]);
        }
        lemma_printed_keys_all_present(t, rest);
        assert(keys.last() == keys[keys.len() - 1]);
        assert(rest.push(keys.last()) =~= keys);
    }
}

/// Printing fields only reads the values of the keys printed.
proof fn lemma_fields_text_congruent(t1: TokenView, t2: TokenView, keys: Seq<Seq<char>>)
    requires
        forall|k: Seq<char>| keys.contains(k) ==> field_value(t1.keys, t1.values, k) == field_value(
            t2.keys,
            t2.values,
            k,
        ),
    ensures
        fields_text(t1, keys) == fields_text(t2, keys),
    decreases keys.len(),
{
    if keys.len() > 0 {
        let rest = keys.drop_last();
        assert forall|k: Seq<char>| rest.contains(k) implies field_value(t1.keys, t1.values, k)
            == field_value(t2.keys, t2.values, k) by {
            let i = choose|i: int| 0 <= i < rest.len() && rest[i] == k;
            assert(keys[i] == k);
            assert(keys.contains(k));
        }
        assert(keys.contains(keys.last())) by {
            assert(keys[keys.len() - 1] == keys.last());
        }
        lemma_fields_text_congruent(t1, t2, rest);
    }
}

/// The printed text of the fields is the text of the printed fields.
proof fn lemma_fields_text_printed(t: TokenView, keys: Seq<Seq<char>>)
    ensures
        fields_text(t, keys) == field_list_text(printed_fields(t, keys).0, printed_fields(t, keys).1),
    decreases keys.len(),
{
    if keys.len() > 0 {
        let rest = keys.drop_last();
        lemma_fields_text_printed(t, rest);
        let (ks, vs) = printed_fields(t, rest);
        if let Some(v) = field_value(t.keys, t.values, keys.last()) {
            assert(ks.push(keys.last()).drop_last() =~= ks);
            assert(vs.push(v).drop_last() =~= vs);
            assert(field_list_text(ks.push(keys.last()), vs.push(v)) == field_list_text(ks, vs)
                + one_field(keys.last(), v));
            assert(fields_text(t, keys) =~= field_list_text(ks, vs) + one_field(keys.last(), v));
        } else {
            assert(fields_text(t, keys) =~= field_list_text(ks, vs));
        }
    }
}

/// A token and its printed form print the same.
pub proof fn lemma_printed_token_text(kind: OrderKind, t: TokenView)
    requires
        t.keys.len() == t.values.len(),
    ensures
        token_text(kind, printed_token(kind, t)) == token_text(kind, t),
        token_text(kind, t) == text_of(printed_token(kind, t)),
{
    let p = printed_token(kind, t);
    let keys = printed_keys(kind, t);
    let po = "preserve_order"@;
    lemma_fields_text_printed(t, keys);
    assert forall|k: Seq<char>| keys.contains(k) implies field_value(p.keys, p.values, k)
        == field_value(t.keys, t.values, k) by {
        lemma_printed_field_value(t, keys, k);
    }
    lemma_printed_field_value(t, keys, po);
    if keys == t.keys {
        assert forall|i: int| 0 <= i < keys.len() implies field_value(
            t.keys,
            t.values,
            #[trigger] keys[i],
        ) is Some by {
            lemma_field_value_present(t.keys, t.values, keys[i]);
        }
        lemma_printed_keys_all_present(t, keys);
        if keeps_order(t) {
            assert(keys.contains(po)) by {
                let i = lemma_field_value_found(t.keys, t.values, po);
            }
        }
        assert(keeps_order(p) == keeps_order(t));
        assert(printed_keys(kind, p) == keys);
    } else {
        assert(field_order(kind, t.name) is Some && !keeps_order(t));
        assert(!keeps_order(p));
        assert(printed_keys(kind, p) == keys);
    }
    lemma_fields_text_congruent(p, t, keys);
}

// ---------------------------------------------------------------------
// What the parser gives is well formed.

proof fn lemma_value_escaped(s: Seq<char>, p: int)
    ensures
        value_end(s, p) matches Some(q) ==> escaped(s.subrange(p, q)),
    decreases s.len() - p,
{
    if 0 <= p < s.len() && s[p] != '"' {
        if s[p] == '\\' {
            if p + 1 < s.len() {
                lemma_value_escaped(s, p + 2);
                lemma_value_end(s, p + 2);
                if let Some(q) = value_end(s, p + 2) {
                    let v = s.subrange(p, q);
                    assert(v.subrange(2, v.len() as int) =~= s.subrange(p + 2, q));
                }
            }
        } else {
            lemma_value_escaped(s, p + 1);
            lemma_value_end(s, p + 1);
            if let Some(q) = value_end(s, p + 1) {
                assert(s.subrange(p, q).drop_first() =~= s.subrange(p + 1, q));
            }
        }
    }
}

proof fn lemma_key_end_word(s: Seq<char>, j: int)
    requires
        0 <= j <= s.len(),
    ensures
        key_word(s.subrange(j, key_end(s, j))),
    decreases s.len() - j,
{
    lemma_key_end(s, j);
    if j < s.len() && is_key_char(s[j]) {
        lemma_key_end_word(s, j + 1);
        lemma_key_end(s, j + 1);
        assert forall|i: int| 0 <= i < key_end(s, j) - j implies is_key_char(
            #[trigger] s.subrange(j, key_end(s, j))[i],
        ) by {
            if i > 0 {
                assert(s.subrange(j, key_end(s, j))[i] == s.subrange(j + 1, key_end(s, j + 1))[i
                    - 1]);
            }
        }
    }
}

proof fn lemma_parse_fields_wf(s: Seq<char>, i: int)
    ensures
        parse_fields(s, i) matches Some((ks, vs, r)) ==> {
            &&& ks.len() == vs.len()
            &&& forall|m: int| 0 <= m < ks.len() ==> key_word(#[trigger] ks[m])
            &&& forall|m: int| 0 <= m < vs.len() ==> escaped(#[trigger] vs[m])
        },
    decreases s.len() - i,
{
    lemma_parse_fields(s, i);
    if 0 <= i <= s.len() {
        lemma_spaces_end(s, i);
        let j = spaces_end(s, i);
        if j < s.len() && s[j] != '}' && !is_other_space(s[j]) {
            let k = key_end(s, j);
            lemma_key_end(s, j);
            lemma_key_end_word(s, j);
            let p = skip_if(s, skip_if(s, skip_if(s, k, ':'), ' '), '"');
            lemma_value_end(s, p);
            lemma_value_escaped(s, p);
            if let Some(q) = value_end(s, p) {
                lemma_parse_fields_wf(s, q + 1);
                if let Some((ks, vs, r)) = parse_fields(s, q + 1) {
                    let ks2 = seq![s.subrange(j, k)] + ks;
                    let vs2 = seq![s.subrange(p, q)] + vs;
                    assert forall|m: int| 0 <= m < ks2.len() implies key_word(#[trigger] ks2[m]) by {
                        if m > 0 {
                            assert(ks2[m] == ks[m - 1]);
                        }
                    }
                    assert forall|m: int| 0 <= m < vs2.len() implies escaped(#[trigger] vs2[m]) by {
                        if m > 0 {
                            assert(vs2[m] == vs[m - 1]);
                        }
                    }
                }
            }
        }
    }
}

/// Every token the parser gives is well formed.
pub proof fn lemma_parse_tokens_wf(s: Seq<char>, i: int)
    ensures
        parse_tokens(s, i) matches Some(ts) ==> forall|m: int|
            0 <= m < ts.len() ==> well_formed(#[trigger] ts[m]),
    decreases s.len() - i,
{
    if 0 <= i <= s.len() {
        lemma_spaces_end(s, i);
        let j = spaces_end(s, i);
        if j < s.len() && !is_other_space(s[j]) {
            let k = key_end(s, j);
            lemma_key_end(s, j);
            lemma_key_end_word(s, j);
            let p = skip_if(s, skip_if(s, skip_if(s, k, ' '), '{'), ' ');
            lemma_parse_fields(s, p);
            lemma_parse_fields_wf(s, p);
            if let Some((ks, vs, q)) = parse_fields(s, p) {
                lemma_parse_tokens_wf(s, q);
                if let Some(ts) = parse_tokens(s, q) {
                    let all = seq![TokenView { name: s.subrange(j, k), keys: ks, values: vs }] + ts;
                    assert forall|m: int| 0 <= m < all.len() implies well_formed(#[trigger] all[m]) by {
                        if m > 0 {
                            assert(all[m] == ts[m - 1]);
                        }
                    }
                }
            }
        }
    }
}

proof fn lemma_printed_fields_wf(t: TokenView, keys: Seq<Seq<char>>)
    requires
        well_formed(t),
    ensures
        printed_fields(t, keys).0.len() == printed_fields(t, keys).1.len(),
        forall|m: int| 0 <= m < printed_fields(t, keys).0.len() ==> key_word(#[trigger] printed_fields(t, keys).0[m]),
        forall|m: int| 0 <= m < printed_fields(t, keys).1.len() ==> escaped(#[trigger] printed_fields(t, keys).1[m]),
    decreases keys.len(),
{
    if keys.len() > 0 {
        lemma_printed_fields_wf(t, keys.drop_last());
        let (ks, vs) = printed_fields(t, keys.drop_last());
        if let Some(v) = field_value(t.keys, t.values, keys.last()) {
            let i = lemma_field_value_found(t.keys, t.values, keys.last());
            assert(key_word(t.keys[i]));
            assert(escaped(t.values[i]));
            assert forall|m: int| 0 <= m < ks.push(keys.last()).len() implies key_word(#[trigger] ks.push(keys.last())[m]) by {
                if m < ks.len() {
                    assert(ks.push(keys.last())[m] == ks[m]);
                }
            }
            assert forall|m: int| 0 <= m < vs.push(v).len() implies escaped(#[trigger] vs.push(v)[m]) by {
                if m < vs.len() {
                    assert(vs.push(v)[m] == vs[m]);
                }
            }
        }
    }
}

/// The printed form of a well-formed token is well formed.
proof fn lemma_printed_token_wf(kind: OrderKind, t: TokenView)
    requires
        well_formed(t),
    ensures
        well_formed(printed_token(kind, t)),
{
    lemma_printed_fields_wf(t, printed_keys(kind, t));
}

// ---------------------------------------------------------------------
// The printed form parses back.

/// A value between quotes is read up to its closing quote.
proof fn lemma_value_end_of_escaped(s: Seq<char>, p: int, v: Seq<char>)
    requires
        0 <= p,
        p + v.len() < s.len(),
        s.subrange(p, p + v.len()) == v,
        s[p + v.len()] == '"',
        escaped(v),
    ensures
        value_end(s, p) == Some(p + v.len()),
    decreases v.len(),
{
    if v.len() > 0 {
        assert(s[p] == v[0]);
        if v[0] == '\\' {
            let w = v.subrange(2, v.len() as int);
            assert(s.subrange(p + 2, p + 2 + w.len()) =~= w);
            lemma_value_end_of_escaped(s, p + 2, w);
        } else {
            let w = v.drop_first();
            assert(s.subrange(p + 1, p + 1 + w.len()) =~= w);
            lemma_value_end_of_escaped(s, p + 1, w);
        }
    }
}

/// A key word ends where a character that is no key character stands.
proof fn lemma_key_end_of_word(s: Seq<char>, j: int, w: Seq<char>)
    requires
        0 <= j,
        j + w.len() <= s.len(),
        s.subrange(j, j + w.len()) == w,
        key_word(w),
        j + w.len() < s.len() ==> !is_key_char(s[j + w.len()]),
    ensures
        key_end(s, j) == j + w.len(),
    decreases w.len(),
{
    if w.len() > 0 {
        assert(s[j] == w[0]);
        let u = w.drop_first();
        assert(s.subrange(j + 1, j + 1 + u.len()) =~= u);
        assert forall|i: int| 0 <= i < u.len() implies is_key_char(#[trigger] u[i]) by {
            assert(u[i] == w[i + 1]);
        }
        lemma_key_end_of_word(s, j + 1, u);
    }
}

/// The printed fields, read from the front.
proof fn lemma_field_list_front(ks: Seq<Seq<char>>, vs: Seq<Seq<char>>)
    requires
        ks.len() == vs.len(),
        ks.len() > 0,
    ensures
        field_list_text(ks, vs) == one_field(ks[0], vs[0]) + field_list_text(
            ks.drop_first(),
            vs.drop_first(),
        ),
    decreases ks.len(),
{
    if ks.len() == 1 {
        assert(field_list_text(ks.drop_last(), vs.drop_last()) =~= Seq::<char>::empty());
        assert(field_list_text(ks.drop_first(), vs.drop_first()) =~= Seq::<char>::empty());
        assert(one_field(ks[0], vs[0]) + Seq::<char>::empty() =~= one_field(ks[0], vs[0]));
        assert(Seq::<char>::empty() + one_field(ks.last(), vs.last()) =~= one_field(ks[0], vs[0]));
    } else {
        lemma_field_list_front(ks.drop_last(), vs.drop_last());
        assert(ks.drop_last().drop_first() =~= ks.drop_first().drop_last());
        assert(vs.drop_last().drop_first() =~= vs.drop_first().drop_last());
        assert(ks.drop_first().last() == ks.last());
        assert(vs.drop_first().last() == vs.last());
        assert(ks.drop_last()[0] == ks[0]);
        assert(vs.drop_last()[0] == vs[0]);
    }
}

/// Fields can start after a space.
proof fn lemma_parse_fields_space(s: Seq<char>, i: int)
    requires
        0 <= i < s.len(),
        s[i] == ' ',
    ensures
        parse_fields(s, i) == parse_fields(s, i + 1),
{
    assert(spaces_end(s, i) == spaces_end(s, i + 1));
}

/// The printed fields, followed by ` }`, parse back into the fields.
proof fn lemma_parse_printed_fields(s: Seq<char>, i: int, ks: Seq<Seq<char>>, vs: Seq<Seq<char>>)
    requires
        0 <= i,
        i + field_list_text(ks, vs).len() + 2 <= s.len(),
        s.subrange(i, i + field_list_text(ks, vs).len() + 2) == field_list_text(ks, vs) + " }"@,
        ks.len() == vs.len(),
        forall|m: int| 0 <= m < ks.len() ==> key_word(#[trigger] ks[m]),
        forall|m: int| 0 <= m < vs.len() ==> escaped(#[trigger] vs[m]),
    ensures
        parse_fields(s, i) == Some((ks, vs, i + field_list_text(ks, vs).len() + 2)),
    decreases ks.len(),
{
    reveal_strlit(" }");
    reveal_strlit(" ");
    reveal_strlit(": \"");
    reveal_strlit("\"");
    let x = field_list_text(ks, vs) + " }"@;
    if ks.len() == 0 {
        assert(field_list_text(ks, vs) =~= Seq::<char>::empty());
        assert(s[i] == x[0]);
        assert(s[i + 1] == x[1]);
        assert(spaces_end(s, i + 1) == i + 1);
        assert(ks =~= Seq::<Seq<char>>::empty());
        assert(vs =~= Seq::<Seq<char>>::empty());
    } else {
        lemma_field_list_front(ks, vs);
        let k0 = ks[0];
        let v0 = vs[0];
        assert(key_word(k0));
        assert(escaped(v0));
        let rest = field_list_text(ks.drop_first(), vs.drop_first());
        let f = one_field(k0, v0);
        assert(x =~= f + (rest + " }"@));
        assert(f.len() == k0.len() + v0.len() + 5);
        // positions inside `x`
        assert(s[i] == x[0]);
        assert(x[0] == ' ');
        let j = i + 1;
        let k = j + k0.len();
        let p = k + 3;
        let q = p + v0.len();
        assert(s[j] == x[1]);
        if k0.len() > 0 {
            assert(x[1] == k0[0]);
            assert(is_key_char(k0[0]));
        } else {
            assert(x[1] == ':');
        }
        assert(spaces_end(s, j) == j);
        assert(spaces_end(s, i) == j);
        assert(s.subrange(j, j + k0.len()) =~= k0) by {
            assert forall|m: int| 0 <= m < k0.len() implies s.subrange(j, j + k0.len())[m]
                == k0[m] by {
                assert(s[j + m] == x[1 + m]);
            }
        }
        assert(s[k] == x[1 + k0.len() as int]);
        assert(x[1 + k0.len() as int] == ':');
        lemma_key_end_of_word(s, j, k0);
        assert(s[k + 1] == x[2 + k0.len() as int]);
        assert(s[k + 2] == x[3 + k0.len() as int]);
        assert(skip_if(s, skip_if(s, skip_if(s, k, ':'), ' '), '"') == p);
        assert(s.subrange(p, q) =~= v0) by {
            assert forall|m: int| 0 <= m < v0.len() implies s.subrange(p, q)[m] == v0[m] by {
                assert(s[p + m] == x[4 + k0.len() as int + m]);
            }
        }
        assert(s[q] == x[4 + k0.len() + v0.len() as int]);
        lemma_value_end_of_escaped(s, p, v0);
        let ks1 = ks.drop_first();
        let vs1 = vs.drop_first();
        assert forall|m: int| 0 <= m < ks1.len() implies key_word(#[trigger] ks1[m]) by {
            assert(ks1[m] == ks[m + 1]);
        }
        assert forall|m: int| 0 <= m < vs1.len() implies escaped(#[trigger] vs1[m]) by {
            assert(vs1[m] == vs[m + 1]);
        }
        assert(s.subrange(q + 1, q + 1 + rest.len() + 2) =~= rest + " }"@) by {
            assert forall|m: int| 0 <= m < rest.len() + 2 implies s.subrange(
                q + 1,
                q + 1 + rest.len() + 2,
            )[m] == (rest + " }"@)[m] by {
                assert(s[q + 1 + m] == x[f.len() as int + m]);
            }
        }
        lemma_parse_printed_fields(s, q + 1, ks1, vs1);
        assert(seq![s.subrange(j, k)] + ks1 =~= ks);
        assert(seq![s.subrange(p, q)] + vs1 =~= vs);
    }
}

/// The first character of printed fields followed by ` }` is a space.
proof fn lemma_fields_start_with_space(ks: Seq<Seq<char>>, vs: Seq<Seq<char>>)
    requires
        ks.len() == vs.len(),
    ensures
        (field_list_text(ks, vs) + " }"@)[0] == ' ',
{
    reveal_strlit(" }");
    reveal_strlit(" ");
    if ks.len() > 0 {
        lemma_field_list_front(ks, vs);
        assert((field_list_text(ks, vs) + " }"@)[0] == one_field(ks[0], vs[0])[0]);
    } else {
        assert(field_list_text(ks, vs) =~= Seq::<char>::empty());
    }
}

/// A stretch of `s` that reads `a + b` reads `a`, then `b`.
proof fn lemma_split(s: Seq<char>, i: int, a: Seq<char>, b: Seq<char>)
    requires
        0 <= i,
        i + a.len() + b.len() <= s.len(),
        s.subrange(i, i + a.len() + b.len()) == a + b,
    ensures
        s.subrange(i, i + a.len()) == a,
        s.subrange(i + a.len(), i + a.len() + b.len()) == b,
{
    assert forall|m: int| 0 <= m < a.len() implies s.subrange(i, i + a.len())[m] == a[m] by {
        assert(s.subrange(i, i + a.len() + b.len())[m] == (a + b)[m]);
    }
    assert forall|m: int| 0 <= m < b.len() implies s.subrange(
        i + a.len(),
        i + a.len() + b.len(),
    )[m] == b[m] by {
        assert(s.subrange(i, i + a.len() + b.len())[a.len() + m] == (a + b)[a.len() + m]);
        assert((a + b)[a.len() + m] == b[m]);
        assert(s.subrange(i, i + a.len() + b.len())[a.len() + m] == s[i + a.len() + m]);
    }
    assert(s.subrange(i, i + a.len()) =~= a);
    assert(s.subrange(i + a.len(), i + a.len() + b.len()) =~= b);
}

/// The piece of a printed token before its `{`: an optional space, the
/// name, an optional space; it ends at the `{`.
proof fn lemma_token_head(s: Seq<char>, i: int, n: Seq<char>, lead: Seq<char>, sep: Seq<char>)
    requires
        key_word(n),
        lead == Seq::<char>::empty() || lead == " "@,
        sep == Seq::<char>::empty() || sep == " "@,
        0 <= i,
        i + lead.len() + n.len() + sep.len() + 2 <= s.len(),
        s.subrange(i, i + lead.len()) == lead,
        s.subrange(i + lead.len(), i + lead.len() + n.len()) == n,
        s.subrange(i + lead.len() + n.len(), i + lead.len() + n.len() + sep.len()) == sep,
        s[i + lead.len() + n.len() + sep.len()] == '{',
        s[i + lead.len() + n.len() + sep.len() + 1] == ' ',
    ensures
        ({
            let j = spaces_end(s, i);
            &&& j < s.len()
            &&& !is_other_space(s[j])
            &&& s.subrange(j, key_end(s, j)) == n
            &&& skip_if(s, skip_if(s, skip_if(s, key_end(s, j), ' '), '{'), ' ') == i + lead.len()
                + n.len() + sep.len() + 2
        }),
{
    reveal_strlit(" ");
    let a = i + lead.len();
    let k = a + n.len();
    let b = k + sep.len();
    if lead.len() == 1 {
        assert(s[i] == s.subrange(i, i + lead.len())[0]);
        assert(spaces_end(s, i) == spaces_end(s, i + 1));
    }
    if n.len() > 0 {
        assert(s[a] == s.subrange(a, k)[0]);
        assert(is_key_char(n[0]));
        assert(spaces_end(s, a) == a);
        if sep.len() == 1 {
            assert(s[k] == s.subrange(k, b)[0]);
        }
        assert(!is_key_char(s[k]));
        lemma_key_end_of_word(s, a, n);
        assert(spaces_end(s, i) == a);
    } else {
        if sep.len() == 1 {
            assert(s[a] == s.subrange(k, b)[0]);
            assert(spaces_end(s, a) == spaces_end(s, a + 1));
        }
        assert(spaces_end(s, b) == b);
        assert(spaces_end(s, i) == b);
        assert(key_end(s, b) == b);
        assert(s.subrange(b, b) =~= n);
    }
}

/// A printed token, after an optional space, with or without the space
/// before its `{`, parses back into the token.
proof fn lemma_parse_printed_token(s: Seq<char>, i: int, t: TokenView, lead: Seq<char>, sep: Seq<char>)
    requires
        well_formed(t),
        lead == Seq::<char>::empty() || lead == " "@,
        sep == Seq::<char>::empty() || sep == " "@,
        0 <= i,
        i + (lead + t.name + sep + "{"@ + (field_list_text(t.keys, t.values) + " }"@)).len()
            <= s.len(),
        s.subrange(
            i,
            i + (lead + t.name + sep + "{"@ + (field_list_text(t.keys, t.values) + " }"@)).len(),
        ) == lead + t.name + sep + "{"@ + (field_list_text(t.keys, t.values) + " }"@),
    ensures
        parse_tokens(s, i) == after_tokens(
            seq![t],
            parse_tokens(
                s,
                i + (lead + t.name + sep + "{"@ + (field_list_text(t.keys, t.values)
                    + " }"@)).len(),
            ),
        ),
{
    reveal_strlit("{");
    reveal_strlit(" }");
    let f = field_list_text(t.keys, t.values);
    let tail = f + " }"@;
    let n = t.name;
    let y3 = lead + n + sep;
    let y4 = y3 + "{"@;
    let a = i + lead.len();
    let k = a + n.len();
    let b = k + sep.len();
    lemma_split(s, i, y4, tail);
    lemma_split(s, i, y3, "{"@);
    lemma_split(s, i, lead + n, sep);
    lemma_split(s, i, lead, n);
    assert(s[b] == s.subrange(b, b + 1)[0]);
    lemma_fields_start_with_space(t.keys, t.values);
    assert(s[b + 1] == s.subrange(b + 1, b + 1 + tail.len())[0]);
    lemma_token_head(s, i, n, lead, sep);
    lemma_parse_printed_fields(s, b + 1, t.keys, t.values);
    lemma_parse_fields_space(s, b + 1);
    lemma_spaces_end(s, i);
    let j = spaces_end(s, i);
    lemma_key_end(s, j);
    assert(TokenView { name: s.subrange(j, key_end(s, j)), keys: t.keys, values: t.values } == t);
}

/// A printed token with its name's space.
proof fn lemma_text_of(t: TokenView, lead: Seq<char>)
    ensures
        lead + text_of(t) == lead + t.name + " "@ + "{"@ + (field_list_text(t.keys, t.values) + " }"@),
{
    reveal_strlit(" {");
    reveal_strlit(" ");
    reveal_strlit("{");
    assert(" {"@ =~= " "@ + "{"@);
    assert(lead + text_of(t) =~= lead + t.name + " "@ + "{"@ + (field_list_text(t.keys, t.values)
        + " }"@));
}

/// Tokens printed each after a space parse back into the tokens.
proof fn lemma_parse_spaced(s: Seq<char>, i: int, ts: Seq<TokenView>)
    requires
        forall|m: int| 0 <= m < ts.len() ==> well_formed(#[trigger] ts[m]),
        0 <= i,
        i + spaced_texts(ts).len() == s.len(),
        s.subrange(i, s.len() as int) == spaced_texts(ts),
    ensures
        parse_tokens(s, i) == Some(ts),
    decreases ts.len(),
{
    if ts.len() == 0 {
        assert(spaces_end(s, i) == i);
        assert(ts =~= Seq::<TokenView>::empty());
    } else {
        let t = ts[0];
        assert(well_formed(t));
        let rest = ts.drop_first();
        let y = " "@ + text_of(t);
        lemma_text_of(t, " "@);
        let y2 = " "@ + t.name + " "@ + "{"@ + (field_list_text(t.keys, t.values) + " }"@);
        assert(spaced_texts(ts) == y + spaced_texts(rest));
        lemma_split(s, i, y, spaced_texts(rest));
        lemma_parse_printed_token(s, i, t, " "@, " "@);
        assert forall|m: int| 0 <= m < rest.len() implies well_formed(#[trigger] rest[m]) by {
            assert(rest[m] == ts[m + 1]);
        }
        lemma_parse_spaced(s, i + y.len(), rest);
        assert(seq![t] + rest =~= ts);
    }
}

proof fn lemma_spaced_push(us: Seq<TokenView>, u: TokenView)
    ensures
        spaced_texts(us.push(u)) == spaced_texts(us) + " "@ + text_of(u),
    decreases us.len(),
{
    if us.len() == 0 {
        assert(us.push(u).drop_first() =~= Seq::<TokenView>::empty());
        assert(us.push(u)[0] == u);
        assert(spaced_texts(Seq::<TokenView>::empty()) =~= Seq::<char>::empty());
        assert(spaced_texts(us.push(u)) =~= " "@ + text_of(u) + Seq::<char>::empty());
        assert(spaced_texts(us) + " "@ + text_of(u) =~= " "@ + text_of(u));
    } else {
        lemma_spaced_push(us.drop_first(), u);
        assert(us.push(u).drop_first() =~= us.drop_first().push(u));
        assert(us.push(u)[0] == us[0]);
        assert(spaced_texts(us.push(u)) =~= spaced_texts(us) + " "@ + text_of(u));
    }
}

/// The printed forms of a token list.
pub open spec fn printed_tokens(kind: OrderKind, ts: Seq<TokenView>) -> Seq<TokenView> {
    ts.map_values(|t: TokenView| printed_token(kind, t))
}

/// The printed token list, read from the front.
proof fn lemma_tokens_text_front(kind: OrderKind, ts: Seq<TokenView>)
    requires
        ts.len() > 0,
        forall|m: int| 0 <= m < ts.len() ==> (#[trigger] ts[m]).keys.len() == ts[m].values.len(),
    ensures
        tokens_text(kind, ts) == text_of(printed_tokens(kind, ts)[0]) + spaced_texts(
            printed_tokens(kind, ts).drop_first(),
        ),
    decreases ts.len(),
{
    let ps = printed_tokens(kind, ts);
    lemma_printed_token_text(kind, ts[0]);
    if ts.len() == 1 {
        assert(ps.drop_first() =~= Seq::<TokenView>::empty());
        assert(text_of(ps[0]) + Seq::<char>::empty() =~= text_of(ps[0]));
    } else {
        let dl = ts.drop_last();
        assert forall|m: int| 0 <= m < dl.len() implies (#[trigger] dl[m]).keys.len()
            == dl[m].values.len() by {
            assert(dl[m] == ts[m]);
        }
        lemma_tokens_text_front(kind, dl);
        let pd = printed_tokens(kind, dl);
        assert(pd =~= ps.drop_last());
        lemma_printed_token_text(kind, ts.last());
        lemma_spaced_push(pd.drop_first(), ps.last());
        assert(pd.drop_first().push(ps.last()) =~= ps.drop_first());
        assert(pd[0] == ps[0]);
    }
}

/// Token lists whose tokens print the same print the same.
proof fn lemma_tokens_text_congruent(kind: OrderKind, a: Seq<TokenView>, b: Seq<TokenView>)
    requires
        a.len() == b.len(),
        forall|m: int| 0 <= m < a.len() ==> token_text(kind, #[trigger] a[m]) == token_text(kind, b[m]),
    ensures
        tokens_text(kind, a) == tokens_text(kind, b),
    decreases a.len(),
{
    if a.len() > 1 {
        assert forall|m: int| 0 <= m < a.len() - 1 implies token_text(kind, #[trigger] a.drop_last()[m])
            == token_text(kind, b.drop_last()[m]) by {
            assert(a.drop_last()[m] == a[m]);
            assert(b.drop_last()[m] == b[m]);
        }
        lemma_tokens_text_congruent(kind, a.drop_last(), b.drop_last());
        assert(token_text(kind, a[a.len() - 1]) == token_text(kind, b[b.len() - 1]));
    } else if a.len() == 1 {
        assert(token_text(kind, a[0]) == token_text(kind, b[0]));
    }
}

/// A printed token list ends with the `}` of its last token.
proof fn lemma_printed_list_last(p0: TokenView, rest: Seq<TokenView>)
    ensures
        (text_of(p0) + spaced_texts(rest)).len() >= 3,
        (text_of(p0) + spaced_texts(rest)).last() == '}',
{
    reveal_strlit(" {");
    reveal_strlit(" }");
    if rest.len() > 0 {
        lemma_spaced_push(rest.drop_last(), rest.last());
        assert(rest.drop_last().push(rest.last()) =~= rest);
        assert(spaced_texts(rest).last() == text_of(rest.last()).last());
    } else {
        assert(spaced_texts(rest) =~= Seq::<char>::empty());
    }
}

/// How trimming a printed token list goes: nothing to trim, unless the
/// first name is empty; then the space before its `{` goes.
proof fn lemma_trim_printed_list(p0: TokenView, rest: Seq<TokenView>)
    requires
        key_word(p0.name),
    ensures
        p0.name.len() > 0 ==> trim(text_of(p0) + spaced_texts(rest)) == text_of(p0) + spaced_texts(rest),
        p0.name.len() == 0 ==> trim(text_of(p0) + spaced_texts(rest)) == (text_of(p0) + spaced_texts(rest)).drop_first(),
{
    reveal_strlit(" {");
    let tt = text_of(p0) + spaced_texts(rest);
    lemma_printed_list_last(p0, rest);
    assert(trim_end(tt) == tt);
    if p0.name.len() > 0 {
        assert(tt[0] == p0.name[0]);
        assert(is_key_char(p0.name[0]));
        assert(trim_start(tt) == tt);
    } else {
        assert(tt[0] == ' ');
        assert(tt[1] == '{');
        let u = tt.drop_first();
        assert(u[0] == '{');
        assert(trim_start(tt) == trim_start(u));
        assert(trim_start(u) == u);
        assert(u.last() == '}');
        assert(trim_end(u) == u);
    }
}

/// The trimmed printed form of a non-empty list of printed tokens parses
/// back into the list.
proof fn lemma_parse_printed_list(ps: Seq<TokenView>)
    requires
        ps.len() > 0,
        forall|m: int| 0 <= m < ps.len() ==> well_formed(#[trigger] ps[m]),
    ensures
        parse_tokens(trim(text_of(ps[0]) + spaced_texts(ps.drop_first())), 0) == Some(ps),
{
    reveal_strlit(" {");
    reveal_strlit(" }");
    reveal_strlit(" ");
    reveal_strlit("{");
    let p0 = ps[0];
    let rest = ps.drop_first();
    assert(well_formed(p0));
    assert forall|m: int| 0 <= m < rest.len() implies well_formed(#[trigger] rest[m]) by {
        assert(rest[m] == ps[m + 1]);
    }
    let f = field_list_text(p0.keys, p0.values) + " }"@;
    let tt = text_of(p0) + spaced_texts(rest);
    let r = trim(tt);
    lemma_trim_printed_list(p0, rest);
    lemma_text_of(p0, Seq::<char>::empty());
    let sep = if p0.name.len() > 0 {
        " "@
    } else {
        Seq::<char>::empty()
    };
    let y = Seq::<char>::empty() + p0.name + sep + "{"@ + f;
    assert(r =~= y + spaced_texts(rest));
    assert(r.subrange(0, (y.len() + spaced_texts(rest).len()) as int) =~= y + spaced_texts(rest));
    lemma_split(r, 0, y, spaced_texts(rest));
    lemma_parse_printed_token(r, 0, p0, Seq::<char>::empty(), sep);
    lemma_parse_spaced(r, y.len() as int, rest);
    assert(seq![p0] + rest =~= ps);
}

/// Reordering is idempotent: reordering the output of a reordering gives
/// the same output back.
pub proof fn lemma_reorder_idempotent(kind: OrderKind, s: Seq<char>, r: Seq<char>)
    requires
        reordered(kind, s) == Ok::<Seq<char>, crate::error::ErrorView>(r),
    ensures
        reordered(kind, r) == Ok::<Seq<char>, crate::error::ErrorView>(r),
{
    let ts = parse_tokens(s, 0)->0;
    lemma_parse_tokens_wf(s, 0);
    if ts.len() == 0 {
        assert(tokens_text(kind, ts) =~= Seq::<char>::empty());
        assert(trim(Seq::<char>::empty()) =~= Seq::<char>::empty());
        assert(r =~= Seq::<char>::empty());
        assert(spaces_end(r, 0) == 0);
        assert(parse_tokens(r, 0) == Some(Seq::<TokenView>::empty()));
    } else {
        let ps = printed_tokens(kind, ts);
        assert forall|m: int| 0 <= m < ts.len() implies (#[trigger] ts[m]).keys.len()
            == ts[m].values.len() by {
            assert(well_formed(ts[m]));
        }
        lemma_tokens_text_front(kind, ts);
        assert forall|m: int| 0 <= m < ps.len() implies well_formed(#[trigger] ps[m]) by {
            assert(well_formed(ts[m]));
            lemma_printed_token_wf(kind, ts[m]);
        }
        lemma_parse_printed_list(ps);
        assert forall|m: int| 0 <= m < ps.len() implies token_text(kind, #[trigger] ps[m])
            == token_text(kind, ts[m]) by {
            lemma_printed_token_text(kind, ts[m]);
        }
        lemma_tokens_text_congruent(kind, ps, ts);
    }
}

} // verus!
