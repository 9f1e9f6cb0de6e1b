use crate::text::push_char;
use vstd::prelude::*;

verus! {

broadcast use vstd::string::axiom_spec_iter;

// ---------------------------------------------------------------------
// JSON text components.
// ---------------------------------------------------------------------

/// A parsed JSON value, as far as sign text reads it: strings, arrays,
/// objects (their members in the parser's order) and anything else.
#[derive(Debug)]
pub enum JsonNode {
    Str(String),
    Arr(Vec<JsonNode>),
    Obj(Vec<(String, JsonNode)>),
    Other,
}

/// The mathematical value of a `JsonNode`.
pub enum JsonModel {
    Str(Seq<char>),
    Arr(Seq<JsonModel>),
    Obj(Seq<(Seq<char>, JsonModel)>),
    Other,
}

pub open spec fn json_model(n: JsonNode) -> JsonModel
    decreases n,
{
    match n {
        JsonNode::Str(s) => JsonModel::Str(s@),
        JsonNode::Arr(a) => JsonModel::Arr(
            Seq::new(a@.len(), |i: int| if 0 <= i < a@.len() { json_model(a@[i]) } else { JsonModel::Other }),
        ),
        JsonNode::Obj(o) => JsonModel::Obj(fields_model(o@)),
        JsonNode::Other => JsonModel::Other,
    }
}

/// The members of an object, as names and values.
pub open spec fn fields_model(o: Seq<(String, JsonNode)>) -> Seq<(Seq<char>, JsonModel)>
    decreases o,
{
    Seq::new(
        o.len(),
        |i: int|
            if 0 <= i < o.len() {
                proof {
                    assert(decreases_to!(o => o[i]));
                }
                (o[i].0@, json_model(o[i].1))
            } else {
                (Seq::empty(), JsonModel::Other)
            },
    )
}

impl View for JsonNode {
    type V = JsonModel;

    open spec fn view(&self) -> JsonModel {
        json_model(*self)
    }
}

#[verifier::external_type_specification]
#[verifier::external_body]
pub struct ExJsonValue(serde_json::Value);

/// What `serde_json::from_str::<serde_json::Value>` makes of a text, as a
/// `JsonModel` (objects in the order serde_json's map iterates), or `None`
/// when it rejects the text.
pub uninterp spec fn parsed_json(text: Seq<char>) -> Option<JsonModel>;

/// Converts a `serde_json::Value`, one variant to one variant. Nothing is
/// claimed of it alone; `parse_json` states the result of the composition.
#[verifier::external_body]
fn node_of(v: &serde_json::Value) -> JsonNode {
    match v {
        serde_json::Value::String(s) => JsonNode::Str(s.clone()),
        serde_json::Value::Array(a) => JsonNode::Arr(a.iter().map(node_of).collect()),
        serde_json::Value::Object(o) => JsonNode::Obj(o.iter().map(|(k, x)| (k.clone(), node_of(x))).collect()),
        _ => JsonNode::Other,
    }
}

/// Calls `serde_json::from_str::<serde_json::Value>` and converts the value.
/// Claimed: the result is a function of the text.
#[verifier::external_body]
fn parse_json(text: &str) -> (r: Option<JsonNode>)
    ensures
        match parsed_json(text@) {
            Some(j) => r matches Some(n) && n@ == j,
            None => r is None,
        },
{
    serde_json::from_str::<serde_json::Value>(text).ok().map(|v| node_of(&v))
}

/// The index of the first member called `key` of an object, or -1.
pub open spec fn member_index(fields: Seq<(Seq<char>, JsonModel)>, key: Seq<char>) -> int
    decreases fields.len(),
{
    if fields.len() == 0 {
        -1
    } else {
        let p = member_index(fields.drop_last(), key);
        if p != -1 {
            p
        } else if fields.last().0 == key {
            fields.len() - 1
        } else {
            -1
        }
    }
}

proof fn lemma_member_index(fields: Seq<(Seq<char>, JsonModel)>, key: Seq<char>)
    ensures
        -1 <= member_index(fields, key) < fields.len(),
    decreases fields.len(),
{
    if fields.len() > 0 {
        lemma_member_index(fields.drop_last(), key);
    }
}

/// The plain text of a JSON text component: a string itself, the texts of
/// an array's items, an object's `text` string followed by the text of its
/// `extra`.
pub open spec fn json_text(j: JsonModel) -> Seq<char>
    decreases j,
{
    match j {
        JsonModel::Str(s) => s,
        JsonModel::Arr(items) => json_texts(items, items.len() as int),
        JsonModel::Obj(fields) => {
            let ti = member_index(fields, "text"@);
            let t = if 0 <= ti < fields.len() {
                match fields[ti].1 {
                    JsonModel::Str(s) => s,
                    _ => Seq::empty(),
                }
            } else {
                Seq::empty()
            };
            let ei = member_index(fields, "extra"@);
            let e = if 0 <= ei < fields.len() {
                proof {
                    assert(decreases_to!(fields => fields[ei]));
                }
                json_text(fields[ei].1)
            } else {
                Seq::empty()
            };
            t + e
        },
        JsonModel::Other => Seq::empty(),
    }
}

/// The concatenated texts of the first `n` components.
pub open spec fn json_texts(items: Seq<JsonModel>, n: int) -> Seq<char>
    decreases items, n,
{
    if n <= 0 || n > items.len() {
        Seq::empty()
    } else {
        proof {
            assert(decreases_to!(items => items[n - 1]));
        }
        json_texts(items, n - 1) + json_text(items[n - 1])
    }
}


/// Appends the plain text of a JSON text component (see `json_text`).
fn append_json_text(element: &JsonNode, builder: &mut String)
    ensures
        final(builder)@ == old(builder)@ + json_text(element@),
    decreases element,
{
    match element {
        JsonNode::Str(s) => {
            assert(element@ == JsonModel::Str(s@));
            append_str(builder, s.as_str());
        },
        JsonNode::Arr(items) => {
            let mut i: usize = 0;
            let ghost start = builder@;
            let ghost m = element@;
            while i < items.len()
                invariant
                    i <= items@.len(),
                    m == element@,
                    *element == JsonNode::Arr(*items),
                    builder@ == start + json_texts(m->Arr_0, i as int),
                decreases items@.len() - i,
            {
                assert(decreases_to!(element => items));
                assert(decreases_to!(items => items@[i as int]));
                append_json_text(&items[i], builder);
                proof {
                    assert(m->Arr_0[i as int] == items@[i as int]@);
                    assert(builder@ =~= start + json_texts(m->Arr_0, i + 1));
                }
                i += 1;
            }
            assert(m->Arr_0.len() == items@.len());
        },
        JsonNode::Obj(fields) => {
            let ghost m = element@;
            let ghost mf = fields_model(fields@);
            assert(m == JsonModel::Obj(mf));
            let ti = member_position(fields, "text");
            if let Some(k) = ti {
                if let JsonNode::Str(t) = &fields[k].1 {
                    append_str(builder, t.as_str());
                }
            }
            let ei = member_position(fields, "extra");
            if let Some(k) = ei {
                assert(decreases_to!(element => fields));
                assert(decreases_to!(fields => fields@[k as int]));
                assert(decreases_to!(fields@[k as int] => fields@[k as int].1));
                append_json_text(&fields[k].1, builder);
            }
        },
        JsonNode::Other => {},
    }
}

/// The position of the first member called `key`.
fn member_position(fields: &Vec<(String, JsonNode)>, key: &str) -> (r: Option<usize>)
    ensures
        match r {
            Some(k) => k < fields@.len() && member_index(fields_model(fields@), key@) == k,
            None => member_index(fields_model(fields@), key@) == -1,
        },
{
    let ghost mf = fields_model(fields@);
    let mut i: usize = 0;
    while i < fields.len()
        invariant
            i <= fields@.len(),
            mf == fields_model(fields@),
            mf.len() == fields@.len(),
            forall|j: int| 0 <= j < i ==> fields@[j].0@ != key@,
        decreases fields@.len() - i,
    {
        assert(mf[i as int].0 == fields@[i as int].0@);
        if crate::text::same_text(fields[i].0.as_str(), key) {
            proof {
                assert forall|j: int| 0 <= j < i implies mf[j].0 != key@ by {
                    assert(mf[j].0 == fields@[j].0@);
                }
                lemma_member_first(mf, key@, i as int);
            }
            return Some(i);
        }
        i += 1;
    }
    proof {
        assert forall|j: int| 0 <= j < i implies mf[j].0 != key@ by {
            assert(mf[j].0 == fields@[j].0@);
        }
        lemma_member_first(mf, key@, i as int);
    }
    None
}

proof fn lemma_member_first(fields: Seq<(Seq<char>, JsonModel)>, key: Seq<char>, i: int)
    requires
        0 <= i <= fields.len(),
        forall|j: int| 0 <= j < i ==> fields[j].0 != key,
    ensures
        i < fields.len() && fields[i].0 == key ==> member_index(fields, key) == i,
        i == fields.len() ==> member_index(fields, key) == -1,
    decreases fields.len(),
{
    if fields.len() > 0 {
        if i < fields.len() {
            lemma_member_first(fields.drop_last(), key, i);
        } else {
            lemma_member_first(fields.drop_last(), key, i - 1);
        }
    }
}

/// Appends the characters of `s`.
fn append_str(builder: &mut String, s: &str)
    ensures
        final(builder)@ == old(builder)@ + s@,
{
    let ghost start = builder@;
    for c in it: s.chars()
        invariant
            it.seq() == s@,
            builder@ == start + s@.take(it.index() as int),
    {
        let ghost k = it.index();
        push_char(builder, c);
        assert(builder@ =~= start + s@.take(k + 1));
    }
    assert(s@.take(s@.len() as int) =~= s@);
}


// ---------------------------------------------------------------------
// Trimming and sanitising sign lines.
// ---------------------------------------------------------------------

/// Whether `char::is_whitespace` holds of `c` (Unicode White_Space).
pub open spec fn is_ws(c: char) -> bool {
    let v = c as u32;
    (0x09 <= v <= 0x0D) || v == 0x20 || v == 0x85 || v == 0xA0 || v == 0x1680 || (0x2000 <= v
        <= 0x200A) || v == 0x2028 || v == 0x2029 || v == 0x202F || v == 0x205F || v == 0x3000
}

/// Whether `c` is a double quote.
pub open spec fn is_quote(c: char) -> bool {
    c == '"'
}

/// `s` without its leading characters that satisfy `p`.
pub open spec fn drop_front(s: Seq<char>, p: spec_fn(char) -> bool) -> Seq<char>
    decreases s.len(),
{
    if s.len() > 0 && p(s[0]) {
        drop_front(s.drop_first(), p)
    } else {
        s
    }
}

/// `s` without its trailing characters that satisfy `p`.
pub open spec fn drop_back(s: Seq<char>, p: spec_fn(char) -> bool) -> Seq<char>
    decreases s.len(),
{
    if s.len() > 0 && p(s.last()) {
        drop_back(s.drop_last(), p)
    } else {
        s
    }
}

/// `s` trimmed of characters satisfying `p` at both ends (as `str::trim`
/// and `str::trim_matches` do).
pub open spec fn trim_by(s: Seq<char>, p: spec_fn(char) -> bool) -> Seq<char> {
    drop_back(drop_front(s, p), p)
}

pub(crate) proof fn lemma_drop_front(s: Seq<char>, p: spec_fn(char) -> bool, i: int)
    requires
        0 <= i <= s.len(),
        forall|k: int| 0 <= k < i ==> p(s[k]),
        i == s.len() || !p(s[i]),
    ensures
        drop_front(s, p) == s.skip(i),
    decreases i,
{
    if i > 0 {
        lemma_drop_front(s.drop_first(), p, i - 1);
        assert(s.drop_first().skip(i - 1) =~= s.skip(i));
    } else {
        assert(s.skip(0) =~= s);
    }
}

pub(crate) proof fn lemma_drop_back(s: Seq<char>, p: spec_fn(char) -> bool, j: int)
    requires
        0 <= j <= s.len(),
        forall|k: int| j <= k < s.len() ==> p(s[k]),
        j == 0 || !p(s[j - 1]),
    ensures
        drop_back(s, p) == s.take(j),
    decreases s.len() - j,
{
    if j < s.len() {
        lemma_drop_back(s.drop_last(), p, j);
        assert(s.drop_last().take(j) =~= s.take(j));
    } else {
        assert(s.take(j) =~= s);
    }
}

pub(crate) fn ws_char(c: char) -> (r: bool)
    ensures
        r == is_ws(c),
{
    let v = c as u32;
    (0x09 <= v && v <= 0x0D) || v == 0x20 || v == 0x85 || v == 0xA0 || v == 0x1680 || (0x2000 <= v
        && v <= 0x200A) || v == 0x2028 || v == 0x2029 || v == 0x202F || v == 0x205F || v == 0x3000
}

/// The characters of `s`.
pub(crate) fn chars_of(s: &str) -> (r: Vec<char>)
    ensures
        r@ == s@,
{
    let mut out: Vec<char> = Vec::new();
    for c in it: s.chars()
        invariant
            it.seq() == s@,
            out@ == s@.take(it.index() as int),
    {
        let ghost k = it.index();
        out.push(c);
        assert(out@ =~= s@.take(k + 1));
    }
    assert(s@.take(s@.len() as int) =~= s@);
    out
}

/// A string of the characters `cs[from..to]`.
pub(crate) fn string_of(cs: &Vec<char>, from: usize, to: usize) -> (r: String)
    requires
        from <= to <= cs@.len(),
    ensures
        r@ == cs@.subrange(from as int, to as int),
{
    let mut out = String::new();
    let mut k = from;
    while k < to
        invariant
            from <= k <= to <= cs@.len(),
            out@ == cs@.subrange(from as int, k as int),
        decreases to - k,
    {
        push_char(&mut out, cs[k]);
        k += 1;
        assert(out@ =~= cs@.subrange(from as int, k as int));
    }
    out
}

fn trims(c: char, quotes: bool) -> (r: bool)
    ensures
        r == (if quotes { is_quote(c) } else { is_ws(c) }),
{
    if quotes {
        c == '"'
    } else {
        ws_char(c)
    }
}

/// Trims characters satisfying `ws_char` (`quotes` false) or double quotes
/// (`quotes` true) from both ends of `cs`.
pub(crate) fn trim_chars(cs: &Vec<char>, quotes: bool) -> (r: String)
    ensures
        quotes ==> r@ == trim_by(cs@, |c: char| is_quote(c)),
        !quotes ==> r@ == trim_by(cs@, |c: char| is_ws(c)),
{
    let ghost p = if quotes { |c: char| is_quote(c) } else { |c: char| is_ws(c) };
    let n = cs.len();
    let mut i: usize = 0;
    while i < n && trims(cs[i], quotes)
        invariant
            i <= n == cs@.len(),
            p == (if quotes { |c: char| is_quote(c) } else { |c: char| is_ws(c) }),
            forall|k: int| 0 <= k < i ==> p(cs@[k]),
        decreases n - i,
    {
        i += 1;
    }
    proof {
        lemma_drop_front(cs@, p, i as int);
    }
    let ghost front = cs@.skip(i as int);
    let mut j: usize = n;
    while j > i && trims(cs[j - 1], quotes)
        invariant
            i <= j <= n == cs@.len(),
            p == (if quotes { |c: char| is_quote(c) } else { |c: char| is_ws(c) }),
            forall|k: int| j <= k < n ==> p(cs@[k]),
        decreases j,
    {
        j -= 1;
    }
    proof {
        assert forall|k: int| j - i <= k < front.len() implies p(front[k]) by {
            assert(front[k] == cs@[k + i]);
        }
        if j > i {
            assert(front[j - i - 1] == cs@[j - 1]);
        }
        lemma_drop_back(front, p, j - i);
        assert(front.take(j - i) =~= cs@.subrange(i as int, j as int));
    }
    string_of(cs, i, j)
}

/// The plain text of a sign line: trimmed; a line that starts like JSON
/// (`{`, `[` or `"`) becomes the text of its components, or, when it does
/// not parse, loses its surrounding quotes.
pub open spec fn simplified(raw: Seq<char>) -> Seq<char> {
    let t = trim_by(raw, |c: char| is_ws(c));
    if !(t.len() > 0 && (t[0] == '{' || t[0] == '[' || t[0] == '"')) {
        t
    } else {
        match parsed_json(t) {
            Some(j) => json_text(j),
            None => trim_by(t, |c: char| is_quote(c)),
        }
    }
}

/// Simplifies a sign line (see `simplified`).
pub fn simplify_sign_text(raw: &str) -> (r: String)
    ensures
        r@ == simplified(raw@),
{
    let t = trim_chars(&chars_of(raw), false);
    let tc = chars_of(t.as_str());
    if !(tc.len() > 0 && (tc[0] == '{' || tc[0] == '[' || tc[0] == '"')) {
        return t;
    }
    match parse_json(t.as_str()) {
        Some(doc) => {
            let mut builder = String::new();
            append_json_text(&doc, &mut builder);
            assert(builder@ =~= json_text(doc@));
            builder
        },
        None => trim_chars(&tc, true),
    }
}

/// Whether a character is dropped from sign lines: line breaks, tabs, NUL
/// and every other control character (`char::is_control`).
pub open spec fn dropped_char(c: char) -> bool {
    let v = c as u32;
    v <= 0x1F || (0x7F <= v <= 0x9F)
}

/// The UTF-8 length of one character.
pub open spec fn char_width(c: char) -> nat {
    let v = c as u32;
    if v < 0x80 {
        1
    } else if v < 0x800 {
        2
    } else if v < 0x10000 {
        3
    } else {
        4
    }
}

/// The UTF-8 length of a string.
pub open spec fn utf8_len(s: Seq<char>) -> nat
    decreases s.len(),
{
    if s.len() == 0 {
        0
    } else {
        utf8_len(s.drop_last()) + char_width(s.last())
    }
}

/// Keeps the characters of `s` that are not dropped, after `acc`, stopping
/// once the kept text reaches 15 bytes.
pub open spec fn sanitize_from(s: Seq<char>, acc: Seq<char>) -> Seq<char>
    decreases s.len(),
{
    if s.len() == 0 {
        acc
    } else if dropped_char(s[0]) {
        sanitize_from(s.drop_first(), acc)
    } else {
        let a = acc.push(s[0]);
        if utf8_len(a) >= 15 {
            a
        } else {
            sanitize_from(s.drop_first(), a)
        }
    }
}

/// A sign line as the console stores it (see `sanitize_from`).
pub open spec fn sanitized(s: Seq<char>) -> Seq<char> {
    sanitize_from(s, Seq::empty())
}

/// Sanitises a sign line (see `sanitized`).
pub fn sanitize_legacy_sign_line(raw: &str) -> (r: String)
    ensures
        r@ == sanitized(raw@),
{
    let cs = chars_of(raw);
    let mut builder = String::new();
    assert(builder@ =~= Seq::<char>::empty());
    assert(cs@.skip(0) =~= cs@);
    let mut blen: usize = 0;
    let mut k: usize = 0;
    while k < cs.len()
        invariant
            k <= cs@.len(),
            sanitize_from(cs@.skip(k as int), builder@) == sanitized(cs@),
            cs@ == raw@,
            blen == utf8_len(builder@),
            blen < 15,
        decreases cs@.len() - k,
    {
        let c = cs[k];
        let v = c as u32;
        assert(cs@.skip(k as int)[0] == c);
        assert(cs@.skip(k as int).drop_first() =~= cs@.skip(k + 1));
        if v <= 0x1F || (0x7F <= v && v <= 0x9F) {
            k += 1;
        } else {
            let w: usize = if v < 0x80 { 1 } else if v < 0x800 { 2 } else if v < 0x10000 { 3 } else { 4 };
            let ghost prev = builder@;
            push_char(&mut builder, c);
            assert(builder@.drop_last() =~= prev);
            assert(utf8_len(builder@) == utf8_len(prev) + char_width(c));
            blen = blen + w;
            if blen >= 15 {
                assert(!dropped_char(c));
                assert(prev.push(c) == builder@);
                assert(utf8_len(prev.push(c)) >= 15);
                assert(sanitize_from(cs@.skip(k as int), prev) == builder@);
                return builder;
            }
            k += 1;
        }
    }
    assert(cs@.skip(k as int) =~= Seq::<char>::empty());
    builder
}

} // verus!
