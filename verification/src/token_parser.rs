use vstd::prelude::*;

use crate::config::{Language, Operator};
use crate::error::{ErrorView, WeTextError};
use crate::text::{chars_of, copy_range, push_chars, push_str, string_of, trim, trim_chars};

verus! {

broadcast use vstd::string::group_string_axioms;

// The tagging transducers write their output as a list of tokens:
//
//     name { key: "value" key: "value" } name { ... }
//
// A token's fields come in the order that the tagger found them. Before
// the verbalizing transducer reads them, the fields of some kinds of token
// are put into the order that the verbalizer expects (a fraction is read
// denominator first in Chinese, for example). This module parses the token
// list and prints it again with its fields in that order.
//
// The grammar, position by position:
// - tokens are separated by spaces; a name is a run of ASCII letters and
//   `_`, followed by an optional ` `, an optional `{` and an optional ` `;
// - a field is a key (a run of ASCII letters and `_`), an optional `:`,
//   an optional ` ` and an optional `"`, then the value up to the next `"`
//   that no `\` escapes (the escapes stay in the value), then that `"`;
// - a token ends at `}` or at the end of the text;
// - a name or a key may not start with a tab, a line feed, a carriage
//   return, a vertical tab or a form feed, and a value must be closed.

/// A parsed token: its name and its fields in the order they came.
pub struct TokenView {
    pub name: Seq<char>,
    pub keys: Seq<Seq<char>>,
    pub values: Seq<Seq<char>>,
}

/// Which field orders apply.
#[derive(Clone, Copy, Debug, PartialEq, Eq, Structural)]
pub enum OrderKind {
    /// Chinese and Japanese TN.
    Tn,
    /// ITN.
    Itn,
    /// English TN.
    EnTn,
}

/// A character of a name or a key.
pub open spec fn is_key_char(c: char) -> bool {
    ('a' <= c <= 'z') || ('A' <= c <= 'Z') || c == '_'
}

/// White space other than the space, where a name or key may not start.
pub open spec fn is_other_space(c: char) -> bool {
    c == '\t' || c == '\n' || c == '\r' || c == '\u{0b}' || c == '\u{0c}'
}

/// The first position at or after `i` that holds no space.
pub open spec fn spaces_end(s: Seq<char>, i: int) -> int
    decreases s.len() - i,
{
    if 0 <= i < s.len() && s[i] == ' ' {
        spaces_end(s, i + 1)
    } else {
        i
    }
}

/// The first position at or after `i` that holds no key character.
pub open spec fn key_end(s: Seq<char>, i: int) -> int
    decreases s.len() - i,
{
    if 0 <= i < s.len() && is_key_char(s[i]) {
        key_end(s, i + 1)
    } else {
        i
    }
}

/// Position `i`, stepped over `c` if `c` stands there.
pub open spec fn skip_if(s: Seq<char>, i: int, c: char) -> int {
    if 0 <= i < s.len() && s[i] == c {
        i + 1
    } else {
        i
    }
}

/// The position of the `"` that closes a value starting at `i`, if the
/// value is closed.
pub open spec fn value_end(s: Seq<char>, i: int) -> Option<int>
    decreases s.len() - i,
{
    if i < 0 || i >= s.len() {
        None
    } else if s[i] == '"' {
        Some(i)
    } else if s[i] == '\\' {
        if i + 1 >= s.len() {
            None
        } else {
            value_end(s, i + 2)
        }
    } else {
        value_end(s, i + 1)
    }
}

pub proof fn lemma_spaces_end(s: Seq<char>, i: int)
    requires
        0 <= i <= s.len(),
    ensures
        i <= spaces_end(s, i) <= s.len(),
        spaces_end(s, i) < s.len() ==> s[spaces_end(s, i)] != ' ',
    decreases s.len() - i,
{
    if i < s.len() && s[i] == ' ' {
        lemma_spaces_end(s, i + 1);
    }
}

pub proof fn lemma_key_end(s: Seq<char>, i: int)
    requires
        0 <= i <= s.len(),
    ensures
        i <= key_end(s, i) <= s.len(),
    decreases s.len() - i,
{
    if i < s.len() && is_key_char(s[i]) {
        lemma_key_end(s, i + 1);
    }
}

pub proof fn lemma_value_end(s: Seq<char>, i: int)
    ensures
        value_end(s, i) matches Some(q) ==> 0 <= i <= q < s.len() && s[q] == '"',
    decreases s.len() - i,
{
    if 0 <= i < s.len() && s[i] != '"' {
        if s[i] == '\\' {
            if i + 1 < s.len() {
                lemma_value_end(s, i + 2);
            }
        } else {
            lemma_value_end(s, i + 1);
        }
    }
}

/// Where the value of a field starts, the key ending at `k`.
pub open spec fn value_start(s: Seq<char>, k: int) -> int {
    skip_if(s, skip_if(s, skip_if(s, k, ':'), ' '), '"')
}

/// Where the fields of a token start, the name ending at `k`.
pub open spec fn fields_start(s: Seq<char>, k: int) -> int {
    skip_if(s, skip_if(s, skip_if(s, k, ' '), '{'), ' ')
}

/// The fields from position `i` to the end of their token: keys, values,
/// and the position after the token; `None` where the text is malformed.
pub open spec fn parse_fields(s: Seq<char>, i: int) -> Option<(Seq<Seq<char>>, Seq<Seq<char>>, int)>
    decreases s.len() - i,
{
    if i < 0 || i > s.len() {
        None
    } else {
        let j = spaces_end(s, i);
        if j >= s.len() {
            Some((Seq::empty(), Seq::empty(), j))
        } else if s[j] == '}' {
            Some((Seq::empty(), Seq::empty(), j + 1))
        } else if is_other_space(s[j]) {
            None
        } else {
            let k = key_end(s, j);
            let p = value_start(s, k);
            match value_end(s, p) {
                None => None,
                Some(q) => {
                    proof {
                        lemma_spaces_end(s, i);
                        lemma_key_end(s, j);
                        lemma_value_end(s, p);
                    }
                    match parse_fields(s, q + 1) {
                        None => None,
                        Some((ks, vs, r)) => Some(
                            (
                                seq![s.subrange(j, k)] + ks,
                                seq![s.subrange(p, q)] + vs,
                                r,
                            ),
                        ),
                    }
                },
            }
        }
    }
}

pub proof fn lemma_parse_fields(s: Seq<char>, i: int)
    ensures
        parse_fields(s, i) matches Some((ks, vs, r)) ==> {
            &&& 0 <= i <= r <= s.len()
            &&& (r > i || r == s.len())
            &&& ks.len() == vs.len()
        },
    decreases s.len() - i,
{
    if 0 <= i <= s.len() {
        lemma_spaces_end(s, i);
        let j = spaces_end(s, i);
        if j < s.len() && s[j] != '}' && !is_other_space(s[j]) {
            let k = key_end(s, j);
            lemma_key_end(s, j);
            let p = value_start(s, k);
            lemma_value_end(s, p);
            if let Some(q) = value_end(s, p) {
                lemma_parse_fields(s, q + 1);
            }
        }
    }
}

/// The tokens from position `i` to the end of `s`; `None` where the text
/// is malformed.
pub open spec fn parse_tokens(s: Seq<char>, i: int) -> Option<Seq<TokenView>>
    decreases s.len() - i,
{
    if i < 0 || i > s.len() {
        None
    } else {
        let j = spaces_end(s, i);
        if j >= s.len() {
            Some(Seq::empty())
        } else if is_other_space(s[j]) {
            None
        } else {
            let k = key_end(s, j);
            let p = fields_start(s, k);
            match parse_fields(s, p) {
                None => None,
                Some((ks, vs, q)) => {
                    proof {
                        lemma_spaces_end(s, i);
                        lemma_key_end(s, j);
                        lemma_parse_fields(s, p);
                    }
                    match parse_tokens(s, q) {
                        None => None,
                        Some(ts) => Some(
                            seq![TokenView { name: s.subrange(j, k), keys: ks, values: vs }] + ts,
                        ),
                    }
                },
            }
        }
    }
}

/// The field order that the verbalizer expects for tokens called `name`,
/// if it expects one.
pub open spec fn field_order(kind: OrderKind, name: Seq<char>) -> Option<Seq<Seq<char>>> {
    match kind {
        OrderKind::Tn => {
            if name == "date"@ {
                Some(seq!["year"@, "month"@, "day"@])
            } else if name == "fraction"@ {
                Some(seq!["denominator"@, "numerator"@])
            } else if name == "measure"@ {
                Some(seq!["denominator"@, "numerator"@, "value"@])
            } else if name == "money"@ {
                Some(seq!["value"@, "currency"@])
            } else if name == "time"@ {
                Some(seq!["noon"@, "hour"@, "minute"@, "second"@])
            } else {
                None
            }
        },
        OrderKind::Itn => {
            if name == "date"@ {
                Some(seq!["year"@, "month"@, "day"@])
            } else if name == "fraction"@ {
                Some(seq!["sign"@, "numerator"@, "denominator"@])
            } else if name == "measure"@ {
                Some(seq!["numerator"@, "denominator"@, "value"@])
            } else if name == "money"@ {
                Some(seq!["currency"@, "value"@, "decimal"@])
            } else if name == "time"@ {
                Some(seq!["hour"@, "minute"@, "second"@, "noon"@])
            } else {
                None
            }
        },
        OrderKind::EnTn => {
            if name == "date"@ {
                Some(seq!["preserve_order"@, "text"@, "day"@, "month"@, "year"@])
            } else if name == "money"@ {
                Some(seq!["integer_part"@, "fractional_part"@, "quantity"@, "currency_maj"@])
            } else {
                None
            }
        },
    }
}

/// The value of the last field called `key`, if there is one: a key that
/// comes twice keeps its last value.
pub open spec fn field_value(keys: Seq<Seq<char>>, values: Seq<Seq<char>>, key: Seq<char>) -> Option<Seq<char>>
    decreases keys.len(),
{
    if keys.len() == 0 || values.len() == 0 {
        None
    } else if keys.last() == key {
        Some(values.last())
    } else {
        field_value(keys.drop_last(), values.drop_last(), key)
    }
}

/// A token keeps the order of its fields when its `preserve_order` field
/// says `true`.
pub open spec fn keeps_order(t: TokenView) -> bool {
    field_value(t.keys, t.values, "preserve_order"@) == Some("true"@)
}

/// The keys printed for `t`, in order: the verbalizer's order where it has
/// one for `t` and `t` does not keep its own, else `t`'s own keys.
pub open spec fn printed_keys(kind: OrderKind, t: TokenView) -> Seq<Seq<char>> {
    match field_order(kind, t.name) {
        Some(order) => if keeps_order(t) {
            t.keys
        } else {
            order
        },
        None => t.keys,
    }
}

/// ` key: "value"` for each key of `keys` that `t` has, with its last value.
pub open spec fn fields_text(t: TokenView, keys: Seq<Seq<char>>) -> Seq<char>
    decreases keys.len(),
{
    if keys.len() == 0 {
        Seq::empty()
    } else {
        fields_text(t, keys.drop_last()) + match field_value(t.keys, t.values, keys.last()) {
            Some(v) => " "@ + keys.last() + ": \""@ + v + "\""@,
            None => Seq::empty(),
        }
    }
}

/// The printed form of a token: `name { key: "value" ... }`.
pub open spec fn token_text(kind: OrderKind, t: TokenView) -> Seq<char> {
    t.name + " {"@ + fields_text(t, printed_keys(kind, t)) + " }"@
}

/// The printed tokens, separated by single spaces.
pub open spec fn tokens_text(kind: OrderKind, ts: Seq<TokenView>) -> Seq<char>
    decreases ts.len(),
{
    if ts.len() == 0 {
        Seq::empty()
    } else if ts.len() == 1 {
        token_text(kind, ts[0])
    } else {
        tokens_text(kind, ts.drop_last()) + " "@ + token_text(kind, ts.last())
    }
}

/// The message of the error for text that is not a token list.
pub open spec fn malformed_message() -> Seq<char> {
    "malformed token text"@
}

/// What reordering gives for `s`: the parsed tokens printed with their
/// fields in the verbalizer's order, trimmed; an error where `s` is not a
/// token list.
pub open spec fn reordered(kind: OrderKind, s: Seq<char>) -> Result<Seq<char>, ErrorView> {
    match parse_tokens(s, 0) {
        Some(ts) => Ok(trim(tokens_text(kind, ts))),
        None => Err(ErrorView::ParseError(malformed_message())),
    }
}

/// The field orders for a language and operator: English TN has its own,
/// the other TN languages share one, and ITN has one.
pub open spec fn order_kind(lang: Language, operator: Operator) -> OrderKind {
    match operator {
        Operator::Itn => OrderKind::Itn,
        Operator::Tn => if lang == Language::En {
            OrderKind::EnTn
        } else {
            OrderKind::Tn
        },
    }
}

/// The views of a list of character vectors.
pub open spec fn views_of(v: Seq<Vec<char>>) -> Seq<Seq<char>> {
    v.map_values(|x: Vec<char>| x@)
}

/// Whether two character slices are equal.
pub fn eq_chars(a: &[char], b: &[char]) -> (r: bool)
    ensures
        r == (a@ == b@),
{
    if a.len() != b.len() {
        return false;
    }
    let n = a.len();
    for i in 0..n
        invariant
            n == a@.len() == b@.len(),
            forall|k: int| 0 <= k < i ==> a@[k] == b@[k],
    {
        if a[i] != b[i] {
            return false;
        }
    }
    assert(a@ =~= b@);
    true
}

/// Whether the characters `v` spell `lit`.
fn is_word(v: &[char], lit: &str) -> (r: bool)
    ensures
        r == (v@ == lit@),
{
    let l = chars_of(lit);
    eq_chars(v, l.as_slice())
}

/// The characters of each of `ws`.
fn words(ws: &[&str]) -> (r: Vec<Vec<char>>)
    ensures
        views_of(r@) == ws@.map_values(|w: &str| w@),
{
    let mut r: Vec<Vec<char>> = Vec::new();
    let n = ws.len();
    for i in 0..n
        invariant
            n == ws@.len(),
            r@.len() == i,
            forall|k: int| 0 <= k < i ==> #[trigger] r@[k]@ == ws@[k]@,
    {
        let w = chars_of(ws[i]);
        r.push(w);
    }
    assert(views_of(r@) =~= ws@.map_values(|w: &str| w@));
    r
}

/// Executable form of [`field_order`].
fn field_order_of(kind: OrderKind, name: &[char]) -> (r: Option<Vec<Vec<char>>>)
    ensures
        match r {
            Some(o) => field_order(kind, name@) == Some(views_of(o@)),
            None => field_order(kind, name@) is None,
        },
{
    match kind {
        OrderKind::Tn => {
            if is_word(name, "date") {
                Some(words(&["year", "month", "day"]))
            } else if is_word(name, "fraction") {
                Some(words(&["denominator", "numerator"]))
            } else if is_word(name, "measure") {
                Some(words(&["denominator", "numerator", "value"]))
            } else if is_word(name, "money") {
                Some(words(&["value", "currency"]))
            } else if is_word(name, "time") {
                Some(words(&["noon", "hour", "minute", "second"]))
            } else {
                None
            }
        },
        OrderKind::Itn => {
            if is_word(name, "date") {
                Some(words(&["year", "month", "day"]))
            } else if is_word(name, "fraction") {
                Some(words(&["sign", "numerator", "denominator"]))
            } else if is_word(name, "measure") {
                Some(words(&["numerator", "denominator", "value"]))
            } else if is_word(name, "money") {
                Some(words(&["currency", "value", "decimal"]))
            } else if is_word(name, "time") {
                Some(words(&["hour", "minute", "second", "noon"]))
            } else {
                None
            }
        },
        OrderKind::EnTn => {
            if is_word(name, "date") {
                Some(words(&["preserve_order", "text", "day", "month", "year"]))
            } else if is_word(name, "money") {
                Some(words(&["integer_part", "fractional_part", "quantity", "currency_maj"]))
            } else {
                None
            }
        },
    }
}

/// Executable form of [`spaces_end`].
fn spaces_end_at(v: &[char], i: usize) -> (r: usize)
    requires
        i <= v@.len(),
    ensures
        r as int == spaces_end(v@, i as int),
        i <= r <= v@.len(),
{
    let mut j = i;
    while j < v.len() && v[j] == ' '
        invariant
            i <= j <= v@.len(),
            spaces_end(v@, i as int) == spaces_end(v@, j as int),
        decreases v@.len() - j,
    {
        j = j + 1;
    }
    j
}

/// Executable form of [`key_end`].
fn key_end_at(v: &[char], i: usize) -> (r: usize)
    requires
        i <= v@.len(),
    ensures
        r as int == key_end(v@, i as int),
        i <= r <= v@.len(),
{
    let mut j = i;
    while j < v.len() && (('a' <= v[j] && v[j] <= 'z') || ('A' <= v[j] && v[j] <= 'Z') || v[j]
        == '_')
        invariant
            i <= j <= v@.len(),
            key_end(v@, i as int) == key_end(v@, j as int),
        decreases v@.len() - j,
    {
        j = j + 1;
    }
    j
}

/// Executable form of [`skip_if`].
fn skip_if_at(v: &[char], i: usize, c: char) -> (r: usize)
    requires
        i <= v@.len(),
    ensures
        r as int == skip_if(v@, i as int, c),
        r <= v@.len(),
{
    if i < v.len() && v[i] == c {
        i + 1
    } else {
        i
    }
}

/// Executable form of [`value_end`].
fn value_end_at(v: &[char], i: usize) -> (r: Option<usize>)
    requires
        i <= v@.len(),
    ensures
        match r {
            Some(q) => value_end(v@, i as int) == Some(q as int),
            None => value_end(v@, i as int) is None,
        },
{
    let mut j = i;
    while j < v.len()
        invariant
            i <= j <= v@.len() + 1,
            value_end(v@, i as int) == value_end(v@, j as int),
        decreases v@.len() - j,
    {
        if v[j] == '"' {
            return Some(j);
        } else if v[j] == '\\' {
            if j + 1 >= v.len() {
                return None;
            }
            j = j + 2;
        } else {
            j = j + 1;
        }
    }
    None
}

/// The fields after `prefix` fields already read.
pub open spec fn after_fields(
    ks: Seq<Seq<char>>,
    vs: Seq<Seq<char>>,
    rest: Option<(Seq<Seq<char>>, Seq<Seq<char>>, int)>,
) -> Option<(Seq<Seq<char>>, Seq<Seq<char>>, int)> {
    match rest {
        None => None,
        Some((ks2, vs2, r)) => Some((ks + ks2, vs + vs2, r)),
    }
}

/// Executable form of [`parse_fields`].
fn parse_fields_at(v: &[char], start: usize) -> (r: Option<(Vec<Vec<char>>, Vec<Vec<char>>, usize)>)
    requires
        start <= v@.len(),
    ensures
        match r {
            Some((ks, vs, e)) => parse_fields(v@, start as int) == Some(
                (views_of(ks@), views_of(vs@), e as int),
            ),
            None => parse_fields(v@, start as int) is None,
        },
{
    let mut ks: Vec<Vec<char>> = Vec::new();
    let mut vs: Vec<Vec<char>> = Vec::new();
    let mut pos = start;
    assert(views_of(ks@) =~= Seq::<Seq<char>>::empty());
    assert(views_of(vs@) =~= Seq::<Seq<char>>::empty());
    assert(after_fields(views_of(ks@), views_of(vs@), parse_fields(v@, pos as int)) =~= parse_fields(v@, start as int)) by {
        match parse_fields(v@, pos as int) {
            Some((a, b, e)) => {
                assert(Seq::<Seq<char>>::empty() + a =~= a);
                assert(Seq::<Seq<char>>::empty() + b =~= b);
            },
            None => {},
        }
    }
    loop
        invariant
            pos <= v@.len(),
            parse_fields(v@, start as int) == after_fields(
                views_of(ks@),
                views_of(vs@),
                parse_fields(v@, pos as int),
            ),
        decreases v@.len() - pos,
    {
        let j = spaces_end_at(v, pos);
        if j >= v.len() {
            return Some((ks, vs, j));
        }
        if v[j] == '}' {
            return Some((ks, vs, j + 1));
        }
        if v[j] == '\t' || v[j] == '\n' || v[j] == '\r' || v[j] == '\u{0b}' || v[j] == '\u{0c}' {
            return None;
        }
        let k = key_end_at(v, j);
        let p = skip_if_at(v, skip_if_at(v, skip_if_at(v, k, ':'), ' '), '"');
        match value_end_at(v, p) {
            None => {
                return None;
            },
            Some(q) => {
                proof {
                    lemma_value_end(v@, p as int);
                }
                let key = copy_range(v, j, k);
                let value = copy_range(v, p, q);
                let ghost old_ks = views_of(ks@);
                let ghost old_vs = views_of(vs@);
                ks.push(key);
                vs.push(value);
                proof {
                    assert(views_of(ks@) =~= old_ks.push(v@.subrange(j as int, k as int)));
                    assert(views_of(vs@) =~= old_vs.push(v@.subrange(p as int, q as int)));
                    match parse_fields(v@, q + 1) {
                        Some((a, b, e)) => {
                            assert(old_ks + (seq![v@.subrange(j as int, k as int)] + a) =~= old_ks.push(v@.subrange(j as int, k as int)) + a);
                            assert(old_vs + (seq![v@.subrange(p as int, q as int)] + b) =~= old_vs.push(v@.subrange(p as int, q as int)) + b);
                        },
                        None => {},
                    }
                }
                pos = q + 1;
            },
        }
    }
}

/// A parsed token.
struct Token {
    name: Vec<char>,
    keys: Vec<Vec<char>>,
    values: Vec<Vec<char>>,
}

impl View for Token {
    type V = TokenView;

    closed spec fn view(&self) -> TokenView {
        TokenView { name: self.name@, keys: views_of(self.keys@), values: views_of(self.values@) }
    }
}

/// The views of a list of tokens.
spec fn token_views(ts: Seq<Token>) -> Seq<TokenView> {
    ts.map_values(|t: Token| t@)
}

/// The tokens after `prefix` tokens already read.
pub open spec fn after_tokens(prefix: Seq<TokenView>, rest: Option<Seq<TokenView>>) -> Option<Seq<TokenView>> {
    match rest {
        None => None,
        Some(ts) => Some(prefix + ts),
    }
}

/// Executable form of [`parse_tokens`] from the start of the text.
fn parse_tokens_of(v: &[char]) -> (r: Option<Vec<Token>>)
    ensures
        match r {
            Some(ts) => parse_tokens(v@, 0) == Some(token_views(ts@)),
            None => parse_tokens(v@, 0) is None,
        },
{
    let mut ts: Vec<Token> = Vec::new();
    let mut pos: usize = 0;
    assert(after_tokens(token_views(ts@), parse_tokens(v@, 0)) =~= parse_tokens(v@, 0)) by {
        if let Some(a) = parse_tokens(v@, 0) {
            assert(token_views(ts@) + a =~= a);
        }
    }
    loop
        invariant
            pos <= v@.len(),
            parse_tokens(v@, 0) == after_tokens(token_views(ts@), parse_tokens(v@, pos as int)),
        decreases v@.len() - pos,
    {
        let j = spaces_end_at(v, pos);
        if j >= v.len() {
            assert(token_views(ts@) + Seq::<TokenView>::empty() =~= token_views(ts@));
            return Some(ts);
        }
        if v[j] == '\t' || v[j] == '\n' || v[j] == '\r' || v[j] == '\u{0b}' || v[j] == '\u{0c}' {
            return None;
        }
        let k = key_end_at(v, j);
        let p = skip_if_at(v, skip_if_at(v, skip_if_at(v, k, ' '), '{'), ' ');
        match parse_fields_at(v, p) {
            None => {
                return None;
            },
            Some((keys, values, q)) => {
                proof {
                    lemma_parse_fields(v@, p as int);
                }
                let name = copy_range(v, j, k);
                let t = Token { name, keys, values };
                let ghost old_ts = token_views(ts@);
                let ghost tv = t@;
                ts.push(t);
                proof {
                    assert(token_views(ts@) =~= old_ts.push(tv));
                    if let Some(a) = parse_tokens(v@, q as int) {
                        assert(old_ts + (seq![tv] + a) =~= old_ts.push(tv) + a);
                    }
                }
                pos = q;
            },
        }
    }
}

/// The index of the last field of `t` called `key`, if there is one.
fn last_field(t: &Token, key: &[char]) -> (r: Option<usize>)
    requires
        t.keys@.len() == t.values@.len(),
    ensures
        match r {
            Some(i) => i < t.values@.len() && field_value(t@.keys, t@.values, key@) == Some(
                t.values@[i as int]@,
            ),
            None => field_value(t@.keys, t@.values, key@) is None,
        },
{
    let ghost ks = t@.keys;
    let ghost vs = t@.values;
    let mut i = t.keys.len();
    assert(ks.take(i as int) =~= ks);
    assert(vs.take(i as int) =~= vs);
    while i > 0
        invariant
            i <= t.keys@.len() == t.values@.len(),
            ks == t@.keys,
            vs == t@.values,
            ks.len() == t.keys@.len(),
            vs.len() == t.values@.len(),
            field_value(ks, vs, key@) == field_value(ks.take(i as int), vs.take(i as int), key@),
        decreases i,
    {
        assert(ks.take(i as int).last() == t.keys@[i - 1]@);
        assert(vs.take(i as int).last() == t.values@[i - 1]@);
        if eq_chars(t.keys[i - 1].as_slice(), key) {
            return Some(i - 1);
        }
        assert(ks.take(i as int).drop_last() =~= ks.take(i - 1));
        assert(vs.take(i as int).drop_last() =~= vs.take(i - 1));
        i = i - 1;
    }
    None
}

/// Whether `t` keeps the order of its fields (see [`keeps_order`]).
fn keeps_own_order(t: &Token) -> (r: bool)
    requires
        t.keys@.len() == t.values@.len(),
    ensures
        r == keeps_order(t@),
{
    let key = chars_of("preserve_order");
    match last_field(t, key.as_slice()) {
        Some(i) => is_word(t.values[i].as_slice(), "true"),
        None => false,
    }
}

/// Appends the fields of `t` named by `keys` (see [`fields_text`]).
fn push_fields(out: &mut Vec<char>, t: &Token, keys: &[Vec<char>])
    requires
        t.keys@.len() == t.values@.len(),
    ensures
        final(out)@ == old(out)@ + fields_text(t@, views_of(keys@)),
{
    let ghost start = out@;
    let n = keys.len();
    assert(views_of(keys@).take(0) =~= Seq::<Seq<char>>::empty());
    for i in 0..n
        invariant
            n == keys@.len(),
            t.keys@.len() == t.values@.len(),
            out@ == start + fields_text(t@, views_of(keys@).take(i as int)),
    {
        let ghost ks = views_of(keys@).take(i + 1);
        assert(ks.drop_last() =~= views_of(keys@).take(i as int));
        assert(ks.last() == keys@[i as int]@);
        match last_field(t, keys[i].as_slice()) {
            Some(j) => {
                push_str(out, " ");
                push_chars(out, keys[i].as_slice());
                push_str(out, ": \"");
                push_chars(out, t.values[j].as_slice());
                push_str(out, "\"");
            },
            None => {},
        }
        assert(out@ =~= start + fields_text(t@, ks));
    }
    assert(views_of(keys@).take(n as int) =~= views_of(keys@));
}

/// Appends the printed form of `t` (see [`token_text`]).
fn push_token(out: &mut Vec<char>, kind: OrderKind, t: &Token)
    requires
        t.keys@.len() == t.values@.len(),
    ensures
        final(out)@ == old(out)@ + token_text(kind, t@),
{
    let ghost start = out@;
    push_chars(out, t.name.as_slice());
    push_str(out, " {");
    match field_order_of(kind, t.name.as_slice()) {
        Some(order) => {
            if keeps_own_order(t) {
                push_fields(out, t, t.keys.as_slice());
            } else {
                push_fields(out, t, order.as_slice());
            }
        },
        None => {
            push_fields(out, t, t.keys.as_slice());
        },
    }
    push_str(out, " }");
    assert(out@ =~= start + token_text(kind, t@));
}

/// The printed tokens (see [`tokens_text`]).
fn print_tokens(kind: OrderKind, ts: &[Token]) -> (r: Vec<char>)
    requires
        forall|i: int| 0 <= i < ts@.len() ==> ts@[i].keys@.len() == ts@[i].values@.len(),
    ensures
        r@ == tokens_text(kind, token_views(ts@)),
{
    let mut out: Vec<char> = Vec::new();
    let n = ts.len();
    for i in 0..n
        invariant
            n == ts@.len(),
            forall|i: int| 0 <= i < ts@.len() ==> ts@[i].keys@.len() == ts@[i].values@.len(),
            out@ == tokens_text(kind, token_views(ts@).take(i as int)),
    {
        let ghost tv = token_views(ts@).take(i + 1);
        assert(tv.drop_last() =~= token_views(ts@).take(i as int));
        assert(tv.last() == ts@[i as int]@);
        if i > 0 {
            push_str(&mut out, " ");
        } else {
            assert(tv =~= seq![ts@[0]@]);
        }
        push_token(&mut out, kind, &ts[i]);
    }
    assert(token_views(ts@).take(n as int) =~= token_views(ts@));
    out
}

/// Puts the fields of tagged tokens into the order that the verbalizer
/// expects.
pub struct TokenParser {
    kind: OrderKind,
}

impl TokenParser {
    /// The field orders that this parser applies.
    pub closed spec fn spec_kind(&self) -> OrderKind {
        self.kind
    }

    /// A parser with the field orders of `lang` and `operator`.
    pub fn new(lang: Language, operator: Operator) -> (p: Self)
        ensures
            p.spec_kind() == order_kind(lang, operator),
    {
        let kind = match operator {
            Operator::Itn => OrderKind::Itn,
            Operator::Tn => match lang {
                Language::En => OrderKind::EnTn,
                _ => OrderKind::Tn,
            },
        };
        TokenParser { kind }
    }

    /// Parses the token list `text` and prints it again with the fields of
    /// each token in the verbalizer's order (see [`reordered`]).
    pub fn reorder(&self, text: &str) -> (r: Result<String, WeTextError>)
        ensures
            match r {
                Ok(s) => reordered(self.spec_kind(), text@) == Ok::<Seq<char>, ErrorView>(s@),
                Err(e) => reordered(self.spec_kind(), text@) == Err::<Seq<char>, ErrorView>(e@),
            },
    {
        let v = chars_of(text);
        match parse_tokens_of(v.as_slice()) {
            None => Err(WeTextError::ParseError("malformed token text".to_string())),
            Some(ts) => {
                proof {
                    assert forall|i: int| 0 <= i < ts@.len() implies ts@[i].keys@.len()
                        == ts@[i].values@.len() by {
                        crate::token_laws::lemma_parse_tokens_wf(v@, 0);
                        assert(token_views(ts@)[i] == ts@[i]@);
                        assert(crate::token_laws::well_formed(token_views(ts@)[i]));
                    }
                }
                let printed = print_tokens(self.kind, ts.as_slice());
                let trimmed = trim_chars(printed.as_slice());
                Ok(string_of(trimmed.as_slice()))
            },
        }
    }
}

} // verus!
