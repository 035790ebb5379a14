//! POML (Pedram's Orchestration Markup Language): job definitions written as
//! markdown. A frontmatter block holds the job's metadata, the first `# `
//! heading names the job, a `## Configuration` (or `## Config`) section holds
//! job-level values, and every other `## ` or `### ` heading starts a task.

use vstd::prelude::*;
use crate::json::{
    finite_float_text, i64_text_value, int_number, json_document, json_object_members,
    number_from_i64, parse_finite_float, parse_i64, parse_json, parse_json_object, JsonNumber,
    JsonValue,
};
use crate::text::{
    ascii_lower, find_from, occurs_at,
    alphanumeric, chars_of, eq_ignore_ascii_case, eq_ignore_ascii_case_chars, find, find_chars,
    is_alphanumeric, lines, lines_of, starts_with, starts_with_chars, strip, strip_chars,
    string_of, trim, trim_chars, trim_start, trim_start_chars, CharClass, lemma_find_from_bound,
    lemma_find_from_first,
};

verus! {

/// Errors that can occur when parsing POML.
#[derive(Debug)]
pub enum PomlError {
    /// Failed to parse frontmatter.
    InvalidFrontmatter(String),
    /// Missing required field.
    MissingField(String),
    /// Invalid task definition.
    InvalidTask(String),
    /// Invalid configuration.
    InvalidConfig(String),
    /// General parsing error.
    ParseError(String),
}

/// A `PomlError` with its message taken as a character sequence.
pub enum PomlFailure {
    InvalidFrontmatter(Seq<char>),
    MissingField(Seq<char>),
    InvalidTask(Seq<char>),
    InvalidConfig(Seq<char>),
    ParseError(Seq<char>),
}

impl View for PomlError {
    type V = PomlFailure;

    open spec fn view(&self) -> PomlFailure {
        match self {
            PomlError::InvalidFrontmatter(m) => PomlFailure::InvalidFrontmatter(m@),
            PomlError::MissingField(m) => PomlFailure::MissingField(m@),
            PomlError::InvalidTask(m) => PomlFailure::InvalidTask(m@),
            PomlError::InvalidConfig(m) => PomlFailure::InvalidConfig(m@),
            PomlError::ParseError(m) => PomlFailure::ParseError(m@),
        }
    }
}

/// What a configuration or task value is: a JSON value given whole, the
/// shortest text of a floating-point number, or a plain string.
pub enum ValueModel {
    Json(JsonValue),
    Float(Seq<char>),
    Text(Seq<char>),
}

/// `v` is the value `m` describes.
pub open spec fn value_is(v: JsonValue, m: ValueModel) -> bool {
    match m {
        ValueModel::Json(j) => v == j,
        ValueModel::Float(t) => v matches JsonValue::Number(JsonNumber::Float(x)) && x@ == t,
        ValueModel::Text(t) => v matches JsonValue::String(x) && x@ == t,
    }
}

/// The strings of `v` are, in order, the sequences of `m`.
pub open spec fn strings_are(v: Seq<String>, m: Seq<Seq<char>>) -> bool {
    v.len() == m.len() && forall|i: int| 0 <= i < v.len() ==> (#[trigger] v[i])@ == m[i]
}

/// What `parse_value` makes of a value written in a list item: an integer,
/// a finite floating-point number, `true`/`false` in any ASCII case, a JSON
/// object or array, and otherwise the text without surrounding quotes.
pub open spec fn value_of(text: Seq<char>) -> ValueModel {
    let s = trim(text);
    match i64_text_value(s) {
        Some(n) => ValueModel::Json(JsonValue::Number(int_number(n as i64))),
        None => match finite_float_text(s) {
            Some(t) => ValueModel::Float(t),
            None => if eq_ignore_ascii_case(s, "true"@) {
                ValueModel::Json(JsonValue::Bool(true))
            } else if eq_ignore_ascii_case(s, "false"@) {
                ValueModel::Json(JsonValue::Bool(false))
            } else if (starts_with(s, "{"@) || starts_with(s, "["@)) && json_document(s) is Some {
                ValueModel::Json(json_document(s).unwrap())
            } else {
                ValueModel::Text(strip(strip(s, CharClass::Exactly('"')), CharClass::Exactly('\'')))
            },
        },
    }
}

/// A string value: trimmed, then without surrounding double quotes, single
/// quotes and backticks, in that order.
pub open spec fn string_value_of(text: Seq<char>) -> Seq<char> {
    strip(
        strip(strip(trim(text), CharClass::Exactly('"')), CharClass::Exactly('\'')),
        CharClass::Exactly('`'),
    )
}

/// The string members of a JSON array, in order; other members are skipped.
pub open spec fn string_members(items: Seq<JsonValue>) -> Seq<Seq<char>>
    decreases items.len(),
{
    if items.len() == 0 {
        seq![]
    } else {
        let rest = string_members(items.drop_last());
        match items.last() {
            JsonValue::String(s) => rest.push(s@),
            _ => rest,
        }
    }
}

/// An `args` value: the strings of a JSON array, which may stand between
/// backticks, or else the text itself, as written.
pub open spec fn array_value_of(text: Seq<char>) -> Seq<Seq<char>> {
    match json_document(strip(text, CharClass::Exactly('`'))) {
        Some(JsonValue::Array(items)) => string_members(items@),
        _ => seq![text],
    }
}

/// `s` with every space replaced by an underscore.
pub open spec fn underscored(s: Seq<char>) -> Seq<char> {
    Seq::new(s.len(), |i: int| if s[i] == ' ' { '_' } else { s[i] })
}

/// The characters of `s` that are alphanumeric or `_`, in order.
pub open spec fn id_chars(s: Seq<char>) -> Seq<char>
    decreases s.len(),
{
    if s.len() == 0 {
        seq![]
    } else if alphanumeric(s.last()) || s.last() == '_' {
        id_chars(s.drop_last()).push(s.last())
    } else {
        id_chars(s.drop_last())
    }
}

/// The lower-case form that `str::to_lowercase` gives `s` (Unicode case
/// mapping of each character, with the context rule for final sigma).
pub uninterp spec fn lowercase(s: Seq<char>) -> Seq<char>;

/// `str::to_lowercase`: the name above; on ASCII text this is ASCII lower
/// case, letter for letter, with every other character unchanged.
#[verifier::external_body]
fn to_lowercase(s: &str) -> (r: String)
    ensures
        r@ == lowercase(s@),
        (forall|i: int| 0 <= i < s@.len() ==> (s@[i] as u32) < 0x80) ==> r@ == s@.map_values(
            |c: char| ascii_lower(c),
        ),
{
    s.to_lowercase()
}

/// The identifier of a task named `name`: lower case, spaces made
/// underscores, and only alphanumeric characters and underscores kept.
pub open spec fn task_id(name: Seq<char>) -> Seq<char> {
    id_chars(underscored(lowercase(name)))
}

fn text_of(s: &[char]) -> (r: String)
    ensures
        r@ == s@,
{
    string_of(s)
}

fn make_task_id(name: &[char]) -> (r: Vec<char>)
    ensures
        r@ == task_id(name@),
{
    let lowered = chars_of(to_lowercase(text_of(name).as_str()).as_str());
    let mut out: Vec<char> = Vec::new();
    let mut i: usize = 0;
    let ghost u = underscored(lowered@);
    while i < lowered.len()
        invariant
            i <= lowered@.len(),
            u == underscored(lowered@),
            out@ == id_chars(u.subrange(0, i as int)),
        decreases lowered@.len() - i,
    {
        let c = if lowered[i] == ' ' {
            '_'
        } else {
            lowered[i]
        };
        proof {
            let p = u.subrange(0, i + 1);
            assert(p.drop_last() =~= u.subrange(0, i as int));
            assert(p.last() == c);
        }
        if is_alphanumeric(c) || c == '_' {
            out.push(c);
        }
        i = i + 1;
    }
    proof {
        assert(u.subrange(0, lowered@.len() as int) =~= u);
    }
    out
}

/// A string value, as `string_value_of` describes it.
fn parse_string_value(s: &[char]) -> (r: Vec<char>)
    ensures
        r@ == string_value_of(s@),
{
    let t = trim_chars(s);
    let a = strip_chars(t.as_slice(), CharClass::Exactly('"'));
    let b = strip_chars(a.as_slice(), CharClass::Exactly('\''));
    strip_chars(b.as_slice(), CharClass::Exactly('`'))
}

/// The string members of `items`.
fn strings_in(items: &Vec<JsonValue>) -> (r: Vec<String>)
    ensures
        strings_are(r@, string_members(items@)),
{
    let mut out: Vec<String> = Vec::new();
    let mut i: usize = 0;
    while i < items.len()
        invariant
            i <= items@.len(),
            strings_are(out@, string_members(items@.subrange(0, i as int))),
        decreases items@.len() - i,
    {
        proof {
            assert(items@.subrange(0, i + 1).drop_last() =~= items@.subrange(0, i as int));
        }
        match &items[i] {
            JsonValue::String(s) => {
                out.push(s.clone());
            },
            _ => {},
        }
        i = i + 1;
    }
    proof {
        assert(items@.subrange(0, items@.len() as int) =~= items@);
    }
    out
}

/// An `args` value, as `array_value_of` describes it.
fn parse_array_value(s: &[char]) -> (r: Vec<String>)
    ensures
        strings_are(r@, array_value_of(s@)),
{
    let unquoted = text_of(strip_chars(s, CharClass::Exactly('`')).as_slice());
    match parse_json(unquoted.as_str()) {
        Some(JsonValue::Array(items)) => strings_in(&items),
        _ => {
            let mut out = Vec::new();
            out.push(text_of(s));
            out
        },
    }
}

/// A configuration or extra value, as `value_of` describes it.
fn parse_value(text: &[char]) -> (r: JsonValue)
    ensures
        value_is(r, value_of(text@)),
{
    let s = trim_chars(text);
    let st = text_of(s.as_slice());
    if let Some(n) = parse_i64(st.as_str()) {
        return JsonValue::Number(number_from_i64(n));
    }
    if let Some(f) = parse_finite_float(st.as_str()) {
        return JsonValue::Number(JsonNumber::Float(f));
    }
    let t = chars_of("true");
    if eq_ignore_ascii_case_chars(s.as_slice(), t.as_slice()) {
        return JsonValue::Bool(true);
    }
    let f = chars_of("false");
    if eq_ignore_ascii_case_chars(s.as_slice(), f.as_slice()) {
        return JsonValue::Bool(false);
    }
    let brace = chars_of("{");
    let bracket = chars_of("[");
    if starts_with_chars(s.as_slice(), brace.as_slice()) || starts_with_chars(
        s.as_slice(),
        bracket.as_slice(),
    ) {
        if let Some(v) = parse_json(st.as_str()) {
            return v;
        }
    }
    let a = strip_chars(s.as_slice(), CharClass::Exactly('"'));
    let b = strip_chars(a.as_slice(), CharClass::Exactly('\''));
    JsonValue::String(text_of(b.as_slice()))
}

} // verus!

verus! {

/// The position of the first entry of `entries` with key `k`.
pub open spec fn key_position<V>(entries: Seq<(Seq<char>, V)>, k: Seq<char>) -> Option<int> {
    if exists|i: int| 0 <= i < entries.len() && entries[i].0 == k {
        Some(choose|i: int| 0 <= i < entries.len() && entries[i].0 == k && forall|j: int| 0 <= j < i ==> entries[j].0 != k)
    } else {
        None
    }
}

/// `entries` after `HashMap::insert(k, v)`: the value of key `k` replaced, or
/// the pair added at the end when `k` is new.
pub open spec fn insert_entry<V>(entries: Seq<(Seq<char>, V)>, k: Seq<char>, v: V) -> Seq<(Seq<char>, V)> {
    match key_position(entries, k) {
        Some(i) => entries.update(i, (k, v)),
        None => entries.push((k, v)),
    }
}

/// The entries of `v`, keys and values, are those `m` describes.
pub open spec fn entries_are(v: Seq<(String, JsonValue)>, m: Seq<(Seq<char>, ValueModel)>) -> bool {
    v.len() == m.len() && forall|i: int| 0 <= i < v.len() ==> (#[trigger] v[i]).0@ == m[i].0 && value_is(v[i].1, m[i].1)
}

/// The pairs of strings of `v` are those of `m`.
pub open spec fn pairs_are(v: Seq<(String, String)>, m: Seq<(Seq<char>, Seq<char>)>) -> bool {
    v.len() == m.len() && forall|i: int| 0 <= i < v.len() ==> (#[trigger] v[i]).0@ == m[i].0 && v[i].1@ == m[i].1
}

proof fn lemma_key_position_first<V>(entries: Seq<(Seq<char>, V)>, k: Seq<char>, j: int)
    requires
        0 <= j < entries.len(),
        entries[j].0 == k,
        forall|i: int| 0 <= i < j ==> entries[i].0 != k,
    ensures
        key_position(entries, k) == Some(j),
{
    let i = choose|i: int| 0 <= i < entries.len() && entries[i].0 == k && forall|m: int| 0 <= m < i ==> entries[m].0 != k;
    assert(0 <= i < entries.len() && entries[i].0 == k && forall|m: int| 0 <= m < i ==> entries[m].0 != k);
    if i < j {
        assert(entries[i].0 != k);
    }
    if j < i {
        assert(entries[j].0 != k);
    }
}

/// Inserts `key` with `val`, replacing an earlier value of the same key.
fn insert_value(entries: &mut Vec<(String, JsonValue)>, key: String, val: JsonValue, Ghost(m): Ghost<Seq<(Seq<char>, ValueModel)>>, Ghost(vm): Ghost<ValueModel>)
    requires
        entries_are(old(entries)@, m),
        value_is(val, vm),
    ensures
        entries_are(final(entries)@, insert_entry(m, key@, vm)),
{
    let mut i: usize = 0;
    while i < entries.len()
        invariant
            entries_are(entries@, m),
            value_is(val, vm),
            i <= entries@.len(),
            forall|j: int| 0 <= j < i ==> m[j].0 != key@,
        decreases entries@.len() - i,
    {
        if entries[i].0 == key {
            proof {
                lemma_key_position_first(m, key@, i as int);
            }
            let ghost before = entries@;
            entries[i] = (key, val);
            proof {
                assert(entries_are(entries@, insert_entry(m, key@, vm))) by {
                    let n = insert_entry(m, key@, vm);
                    assert forall|j: int| 0 <= j < entries@.len() implies (#[trigger] entries@[j]).0@ == n[j].0 && value_is(entries@[j].1, n[j].1) by {
                        if j != i {
                            assert(entries@[j] == before[j]);
                        }
                    }
                }
            }
            return;
        }
        i = i + 1;
    }
    proof {
        assert(key_position(m, key@) is None);
    }
    entries.push((key, val));
}

/// Inserts `key` with `val` into a list of string pairs.
fn insert_pair(entries: &mut Vec<(String, String)>, key: String, val: String, Ghost(m): Ghost<Seq<(Seq<char>, Seq<char>)>>)
    requires
        pairs_are(old(entries)@, m),
    ensures
        pairs_are(final(entries)@, insert_entry(m, key@, val@)),
{
    let mut i: usize = 0;
    while i < entries.len()
        invariant
            pairs_are(entries@, m),
            i <= entries@.len(),
            forall|j: int| 0 <= j < i ==> m[j].0 != key@,
        decreases entries@.len() - i,
    {
        if entries[i].0 == key {
            proof {
                lemma_key_position_first(m, key@, i as int);
            }
            let ghost v = val@;
            let ghost before = entries@;
            entries[i] = (key, val);
            proof {
                assert(pairs_are(entries@, insert_entry(m, key@, v))) by {
                    let n = insert_entry(m, key@, v);
                    assert forall|j: int| 0 <= j < entries@.len() implies (#[trigger] entries@[j]).0@ == n[j].0 && entries@[j].1@ == n[j].1 by {
                        if j != i {
                            assert(entries@[j] == before[j]);
                        }
                    }
                }
            }
            return;
        }
        i = i + 1;
    }
    proof {
        assert(key_position(m, key@) is None);
    }
    entries.push((key, val));
}

/// `s` with every hyphen replaced by an underscore.
pub open spec fn dashes_underscored(s: Seq<char>) -> Seq<char> {
    Seq::new(s.len(), |i: int| if s[i] == '-' { '_' } else { s[i] })
}

/// The task identifier that a link anchor designates: the anchor with its
/// hyphens made underscores, then read as a task name (`#extract-data`
/// designates the task headed `Extract Data`, whose identifier is
/// `extract_data`).
pub open spec fn anchor_id(anchor: Seq<char>) -> Seq<char> {
    task_id(dashes_underscored(anchor))
}

/// Dependencies written as markdown links `[Name](#anchor)`: the task that
/// the anchor designates for each link that has one after it, else the task
/// identifier of the link text. A `(#` without a closing `)` gives no
/// dependency.
pub open spec fn link_deps(rem: Seq<char>) -> Seq<Seq<char>>
    decreases rem.len(),
{
    match find(rem, seq!['[']) {
        None => seq![],
        Some(a0) => {
            let a = a0 as int;
            match find(rem.subrange(a, rem.len() as int), seq![']']) {
                None => seq![],
                Some(e0) => {
                    let e = e0 as int;
                    if a + e + 1 > rem.len() {
                        seq![]
                    } else {
                        let text = rem.subrange(a + 1, a + e);
                        let after = rem.subrange(a + e, rem.len() as int);
                        let dep: Option<Seq<char>> = match find(after, seq!['(', '#']) {
                            Some(b0) => {
                                let b = b0 as int;
                                match find(rem.subrange(a + e + b, rem.len() as int), seq![')']) {
                                    Some(c0) => Some(anchor_id(rem.subrange(a + e + b + 2, a + e + b + c0))),
                                    None => None,
                                }
                            },
                            None => Some(task_id(text)),
                        };
                        let tail = link_deps(rem.subrange(a + e + 1, rem.len() as int));
                        match dep {
                            Some(d) => seq![d] + tail,
                            None => tail,
                        }
                    }
                },
            }
        },
    }
}

/// A dependency list: the link dependencies, or when there are none the
/// strings of a JSON array.
pub open spec fn depends_of(s: Seq<char>) -> Seq<Seq<char>> {
    if link_deps(s).len() > 0 {
        link_deps(s)
    } else {
        match json_document(s) {
            Some(JsonValue::Array(items)) => string_members(items@),
            _ => seq![],
        }
    }
}

/// The task identifier that the anchor `a` designates.
fn anchor_task_id(a: &[char]) -> (r: Vec<char>)
    ensures
        r@ == anchor_id(a@),
{
    let mut name: Vec<char> = Vec::new();
    let mut i: usize = 0;
    while i < a.len()
        invariant
            i <= a@.len(),
            name@ == dashes_underscored(a@).subrange(0, i as int),
        decreases a@.len() - i,
    {
        if a[i] == '-' {
            name.push('_');
        } else {
            name.push(a[i]);
        }
        i = i + 1;
        assert(name@ =~= dashes_underscored(a@).subrange(0, i as int));
    }
    assert(name@ =~= dashes_underscored(a@));
    make_task_id(name.as_slice())
}

fn link_dependencies(s: &[char]) -> (r: Vec<String>)
    ensures
        strings_are(r@, link_deps(s@)),
{
    let mut out: Vec<String> = Vec::new();
    let mut rem: Vec<char> = vstd::slice::slice_to_vec(s);
    let ghost done: Seq<Seq<char>> = seq![];
    let lb = ['['];
    let rb = [']'];
    let anchor = ['(', '#'];
    let rp = [')'];
    proof {
        assert(lb@ =~= seq!['[']);
        assert(rb@ =~= seq![']']);
        assert(anchor@ =~= seq!['(', '#']);
        assert(rp@ =~= seq![')']);
    }
    loop
        invariant
            lb@ == seq!['['],
            rb@ == seq![']'],
            anchor@ == seq!['(', '#'],
            rp@ == seq![')'],
            strings_are(out@, done),
            link_deps(s@) == done + link_deps(rem@),
        decreases rem@.len(),
    {
        let a = match find_chars(rem.as_slice(), &lb) {
            None => {
                proof {
                    assert(done + link_deps(rem@) =~= done);
                }
                return out;
            },
            Some(a) => a,
        };
        proof {
            lemma_find_from_bound(rem@, seq!['['], 0);
        }
        let from = vstd::slice::slice_to_vec(&rem[a..rem.len()]);
        let e = match find_chars(from.as_slice(), &rb) {
            None => {
                proof {
                    assert(done + link_deps(rem@) =~= done);
                }
                return out;
            },
            Some(e) => e,
        };
        proof {
            lemma_find_from_bound(from@, seq![']'], 0);
            if e == 0 {
                assert(from@[0] == '[');
                assert(from@.subrange(0, 1)[0] == from@[0]);
            }
        }
        let text = vstd::slice::slice_to_vec(&rem[a + 1..a + e]);
        let after = vstd::slice::slice_to_vec(&rem[a + e..rem.len()]);
        assert(from@.subrange(e as int, from@.len() as int) =~= after@);
        let mut dep: Option<String> = None;
        match find_chars(after.as_slice(), &anchor) {
            Some(b) => {
                proof {
                    lemma_find_from_bound(after@, seq!['(', '#'], 0);
                }
                let from2 = vstd::slice::slice_to_vec(&rem[a + e + b..rem.len()]);
                match find_chars(from2.as_slice(), &rp) {
                    Some(c) => {
                        proof {
                            lemma_find_from_bound(from2@, seq![')'], 0);
                            assert(from2@[0] == after@[b as int]);
                            assert(from2@[1] == after@[b + 1]);
                            assert(after@.subrange(b as int, b + 2)[0] == '(');
                            assert(after@.subrange(b as int, b + 2)[1] == '#');
                            if c < 2 {
                                assert(from2@.subrange(c as int, c + 1)[0] == from2@[c as int]);
                            }
                        }
                        dep = Some(text_of(anchor_task_id(&rem[a + e + b + 2..a + e + b + c]).as_slice()));
                    },
                    None => {},
                }
            },
            None => {
                dep = Some(text_of(make_task_id(text.as_slice()).as_slice()));
            },
        }
        let next = vstd::slice::slice_to_vec(&rem[a + e + 1..rem.len()]);
        proof {
            let tail = link_deps(next@);
            match &dep {
                Some(d) => {
                    assert(link_deps(rem@) == seq![d@] + tail);
                },
                None => {
                    assert(link_deps(rem@) == tail);
                },
            }
        }
        match dep {
            Some(d) => {
                proof {
                    let old_done = done;
                    done = done.push(d@);
                    assert(old_done + (seq![d@] + link_deps(next@)) =~= done + link_deps(next@));
                }
                out.push(d);
            },
            None => {},
        }
        rem = next;
    }
}

/// A dependency list, as `depends_of` describes it.
fn parse_depends_on(s: &[char]) -> (r: Vec<String>)
    ensures
        strings_are(r@, depends_of(s@)),
{
    let deps = link_dependencies(s);
    if deps.len() > 0 {
        return deps;
    }
    match parse_json(text_of(s).as_str()) {
        Some(JsonValue::Array(items)) => strings_in(&items),
        _ => Vec::new(),
    }
}

} // verus!

verus! {

/// The character sequences of the lines `v`.
pub open spec fn line_views(v: Seq<Vec<char>>) -> Seq<Seq<char>> {
    Seq::new(v.len(), |i: int| v[i]@)
}

/// The nested `  - KEY: VALUE` items, indented by two spaces, that follow
/// an `environment` item, from line `i` on, added to `env`; blank lines are
/// skipped, and any other line ends them. Gives the line where they end.
pub open spec fn nested_scan(ls: Seq<Seq<char>>, i: nat, env: Seq<(Seq<char>, Seq<char>)>) -> (Seq<(Seq<char>, Seq<char>)>, nat)
    decreases ls.len() - i,
{
    if i >= ls.len() {
        (env, i)
    } else {
        let raw = ls[i as int];
        if starts_with(raw, "  - "@) {
            let item = trim(raw.subrange("  - "@.len() as int, raw.len() as int));
            match find(item, seq![':']) {
                Some(p) => nested_scan(
                    ls,
                    i + 1,
                    insert_entry(
                        env,
                        trim(item.subrange(0, p as int)),
                        trim(item.subrange(p as int + 1, item.len() as int)),
                    ),
                ),
                None => nested_scan(ls, i + 1, env),
            }
        } else if trim(raw).len() == 0 {
            nested_scan(ls, i + 1, env)
        } else {
            (env, i)
        }
    }
}

pub proof fn lemma_nested_scan_end(ls: Seq<Seq<char>>, i: nat, env: Seq<(Seq<char>, Seq<char>)>)
    ensures
        nested_scan(ls, i, env).1 >= i,
        i <= ls.len() ==> nested_scan(ls, i, env).1 <= ls.len(),
    decreases ls.len() - i,
{
    if i < ls.len() {
        let raw = ls[i as int];
        if starts_with(raw, "  - "@) {
            let item = trim(raw.subrange("  - "@.len() as int, raw.len() as int));
            match find(item, seq![':']) {
                Some(p) => lemma_nested_scan_end(
                    ls,
                    i + 1,
                    insert_entry(
                        env,
                        trim(item.subrange(0, p as int)),
                        trim(item.subrange(p as int + 1, item.len() as int)),
                    ),
                ),
                None => lemma_nested_scan_end(ls, i + 1, env),
            }
        } else if trim(raw).len() == 0 {
            lemma_nested_scan_end(ls, i + 1, env);
        }
    }
}

/// The nested items of an `environment` list, as `nested_scan` describes
/// them.
fn parse_nested_list(lines: &Vec<Vec<char>>, start: usize) -> (r: (Vec<(String, String)>, usize))
    ensures
        pairs_are(r.0@, nested_scan(line_views(lines@), start as nat, seq![]).0),
        r.1 == nested_scan(line_views(lines@), start as nat, seq![]).1,
{
    let ghost ls = line_views(lines@);
    let mut map: Vec<(String, String)> = Vec::new();
    let ghost gm: Seq<(Seq<char>, Seq<char>)> = seq![];
    let item_mark = chars_of("  - ");
    let colon = [':'];
    proof {
        assert(colon@ =~= seq![':']);
    }
    let mut i = start;
    while i < lines.len()
        invariant
            ls == line_views(lines@),
            item_mark@ == "  - "@,
            colon@ == seq![':'],
            pairs_are(map@, gm),
            nested_scan(ls, start as nat, seq![]) == nested_scan(ls, i as nat, gm),
        decreases lines@.len() - i,
    {
        let raw = &lines[i];
        if starts_with_chars(raw.as_slice(), item_mark.as_slice()) {
            let item = trim_chars(&raw.as_slice()[item_mark.len()..raw.len()]);
            let item_len = item.len();
            match find_chars(item.as_slice(), &colon) {
                Some(p) => {
                    proof {
                        lemma_find_from_bound(item@, seq![':'], 0);
                    }
                    assert(p < item_len);
                    let key = trim_chars(&item[0..p]);
                    let val = trim_chars(&item[p + 1..item.len()]);
                    insert_pair(&mut map, text_of(key.as_slice()), text_of(val.as_slice()), Ghost(gm));
                    proof {
                        gm = insert_entry(gm, key@, val@);
                    }
                },
                None => {},
            }
        } else if trim_chars(raw.as_slice()).len() > 0 {
            return (map, i);
        }
        i = i + 1;
    }
    (map, i)
}

/// `entries` after inserting the members `ms` of a JSON object in order.
pub open spec fn insert_members(entries: Seq<(Seq<char>, ValueModel)>, ms: Seq<(String, JsonValue)>) -> Seq<(Seq<char>, ValueModel)>
    decreases ms.len(),
{
    if ms.len() == 0 {
        entries
    } else {
        insert_entry(insert_members(entries, ms.drop_last()), ms.last().0@, ValueModel::Json(ms.last().1))
    }
}

/// The configuration section from line `i` on: `- KEY: VALUE` items and
/// fenced JSON object blocks, added to `entries` in order; with the line
/// where the section ends (the next heading outside a code block).
pub open spec fn config_scan(
    ls: Seq<Seq<char>>,
    i: nat,
    entries: Seq<(Seq<char>, ValueModel)>,
    in_code: bool,
    code: Seq<char>,
) -> Result<(Seq<(Seq<char>, ValueModel)>, nat), PomlFailure>
    decreases ls.len() - i,
{
    if i >= ls.len() {
        Ok((entries, i))
    } else {
        let line = trim(ls[i as int]);
        if (starts_with(line, "##"@) || starts_with(line, "###"@)) && !in_code {
            Ok((entries, i))
        } else if starts_with(line, "```"@) {
            if in_code {
                if trim(code).len() > 0 {
                    match json_object_members(code) {
                        Err(m) => Err(PomlFailure::InvalidConfig(m)),
                        Ok(ms) => config_scan(ls, i + 1, insert_members(entries, ms), false, seq![]),
                    }
                } else {
                    config_scan(ls, i + 1, entries, false, seq![])
                }
            } else {
                config_scan(ls, i + 1, entries, true, code)
            }
        } else if in_code {
            config_scan(ls, i + 1, entries, true, code + line.push('\n'))
        } else if starts_with(line, "- "@) {
            let item = trim(line.subrange("- "@.len() as int, line.len() as int));
            match find(item, seq![':']) {
                Some(p) => config_scan(
                    ls,
                    i + 1,
                    insert_entry(
                        entries,
                        trim(item.subrange(0, p as int)),
                        value_of(trim(item.subrange(p as int + 1, item.len() as int))),
                    ),
                    in_code,
                    code,
                ),
                None => config_scan(ls, i + 1, entries, in_code, code),
            }
        } else {
            config_scan(ls, i + 1, entries, in_code, code)
        }
    }
}

/// Inserts the members of a parsed JSON object, in order.
fn insert_all(entries: &mut Vec<(String, JsonValue)>, members: Vec<(String, JsonValue)>, Ghost(m): Ghost<Seq<(Seq<char>, ValueModel)>>)
    requires
        entries_are(old(entries)@, m),
    ensures
        entries_are(final(entries)@, insert_members(m, members@)),
{
    let ghost all = members@;
    let mut rest = members;
    let ghost gm = m;
    let ghost i: int = 0;
    while rest.len() > 0
        invariant
            0 <= i <= all.len(),
            rest@ == all.subrange(i, all.len() as int),
            gm == insert_members(m, all.subrange(0, i)),
            entries_are(entries@, gm),
        decreases rest@.len(),
    {
        let (k, v) = rest.remove(0);
        proof {
            assert(all.subrange(0, i + 1).drop_last() =~= all.subrange(0, i));
            assert(all[i] == (k, v));
        }
        insert_value(entries, k, v, Ghost(gm), Ghost(ValueModel::Json(v)));
        proof {
            gm = insert_members(m, all.subrange(0, i + 1));
            i = i + 1;
            assert(rest@ =~= all.subrange(i, all.len() as int));
        }
    }
    proof {
        assert(all.subrange(0, i) =~= all);
    }
}

/// A configuration section, as `config_scan` describes it.
fn parse_config_section(lines: &Vec<Vec<char>>, start: usize) -> (r: Result<(Vec<(String, JsonValue)>, usize), PomlError>)
    ensures
        match config_scan(line_views(lines@), start as nat, seq![], false, seq![]) {
            Ok((m, j)) => r matches Ok((v, k)) && entries_are(v@, m) && k == j,
            Err(e) => r matches Err(x) && x@ == e,
        },
{
    let ghost ls = line_views(lines@);
    let mut config: Vec<(String, JsonValue)> = Vec::new();
    let ghost gm: Seq<(Seq<char>, ValueModel)> = seq![];
    let mut in_code = false;
    let mut code: Vec<char> = Vec::new();
    let h2 = chars_of("##");
    let h3 = chars_of("###");
    let fence = chars_of("```");
    let item_mark = chars_of("- ");
    let colon = [':'];
    proof {
        assert(colon@ =~= seq![':']);
    }
    let mut i = start;
    while i < lines.len()
        invariant
            ls == line_views(lines@),
            h2@ == "##"@,
            h3@ == "###"@,
            fence@ == "```"@,
            item_mark@ == "- "@,
            colon@ == seq![':'],
            entries_are(config@, gm),
            config_scan(ls, start as nat, seq![], false, seq![]) == config_scan(ls, i as nat, gm, in_code, code@),
        decreases lines@.len() - i,
    {
        let line = trim_chars(lines[i].as_slice());
        assert(line@ == trim(ls[i as int]));
        if (starts_with_chars(line.as_slice(), h2.as_slice()) || starts_with_chars(line.as_slice(), h3.as_slice())) && !in_code {
            return Ok((config, i));
        }
        if starts_with_chars(line.as_slice(), fence.as_slice()) {
            if in_code {
                let trimmed = trim_chars(code.as_slice());
                if trimmed.len() > 0 {
                    match parse_json_object(text_of(code.as_slice()).as_str()) {
                        Err(m) => {
                            return Err(PomlError::InvalidConfig(m));
                        },
                        Ok(members) => {
                            let ghost ms = members@;
                            insert_all(&mut config, members, Ghost(gm));
                            proof {
                                gm = insert_members(gm, ms);
                            }
                        },
                    }
                }
                code = Vec::new();
                in_code = false;
            } else {
                in_code = true;
            }
        } else if in_code {
            let mut piece = line;
            piece.push('\n');
            code.append(&mut piece);
        } else if starts_with_chars(line.as_slice(), item_mark.as_slice()) {
            let item = trim_chars(&line[item_mark.len()..line.len()]);
            let item_len = item.len();
            match find_chars(item.as_slice(), &colon) {
                Some(p) => {
                    proof {
                        lemma_find_from_bound(item@, seq![':'], 0);
                    }
                    assert(p < item_len);
                    let key = trim_chars(&item[0..p]);
                    let raw = trim_chars(&item[p + 1..item.len()]);
                    let val = parse_value(raw.as_slice());
                    insert_value(&mut config, text_of(key.as_slice()), val, Ghost(gm), Ghost(value_of(raw@)));
                    proof {
                        gm = insert_entry(gm, key@, value_of(raw@));
                    }
                },
                None => {},
            }
        }
        i = i + 1;
    }
    Ok((config, i))
}

/// Job metadata from the frontmatter.
#[derive(Debug, Clone)]
pub struct PomlMetadata {
    /// Job ID.
    pub id: String,
    /// Optional schedule (cron expression).
    pub schedule: Option<String>,
    /// Optional maximum concurrency.
    pub max_concurrency: Option<usize>,
    /// Whether the job is enabled.
    pub enabled: bool,
    /// Optional job dependencies.
    pub depends_on: Vec<String>,
}

/// The value `enabled` takes when the frontmatter leaves it out.
pub fn default_enabled() -> (r: bool)
    ensures
        r,
{
    true
}

/// A task of a POML document.
#[derive(Debug)]
pub struct PomlTask {
    /// Task ID (derived from the heading).
    pub id: String,
    /// Task display name (the heading).
    pub name: String,
    /// Task description.
    pub description: String,
    /// Task type (e.g., "command").
    pub task_type: String,
    /// Command to execute.
    pub command: Option<String>,
    /// Command arguments.
    pub args: Vec<String>,
    /// Environment variables, each name once.
    pub environment: Vec<(String, String)>,
    /// Task dependencies (other task IDs).
    pub depends_on: Vec<String>,
    /// Dependency condition.
    pub condition: Option<String>,
    /// Additional task configuration, each key once.
    pub extra: Vec<(String, JsonValue)>,
}

/// A parsed POML document.
#[derive(Debug)]
pub struct PomlDocument {
    /// Job metadata from the frontmatter.
    pub metadata: PomlMetadata,
    /// Job name from the H1 heading.
    pub name: String,
    /// Job description (text between the H1 heading and the first section).
    pub description: String,
    /// Job-level configuration, each key once.
    pub config: Vec<(String, JsonValue)>,
    /// The tasks, in document order.
    pub tasks: Vec<PomlTask>,
}

/// What a task section has gathered so far.
pub struct TaskModel {
    /// The description lines joined by line feeds, not yet trimmed.
    pub description: Seq<char>,
    pub task_type: Seq<char>,
    pub command: Option<Seq<char>>,
    pub args: Seq<Seq<char>>,
    pub environment: Seq<(Seq<char>, Seq<char>)>,
    pub depends_on: Seq<Seq<char>>,
    pub condition: Option<Seq<char>>,
    pub extra: Seq<(Seq<char>, ValueModel)>,
}

/// A task section before its first line: type `command`, nothing else.
pub open spec fn fresh_task() -> TaskModel {
    TaskModel {
        description: seq![],
        task_type: "command"@,
        command: None,
        args: seq![],
        environment: seq![],
        depends_on: seq![],
        condition: None,
        extra: seq![],
    }
}

/// `acc` with `line` appended, on a new line when `acc` is not empty.
pub open spec fn joined(acc: Seq<char>, line: Seq<char>) -> Seq<char> {
    if acc.len() == 0 {
        line
    } else {
        acc.push('\n') + line
    }
}

/// `line.split(':').nth(1)`: the text between the first and second colon,
/// or after the first when there is no second, or nothing without a colon.
pub open spec fn second_field(line: Seq<char>) -> Seq<char> {
    match find(line, seq![':']) {
        None => seq![],
        Some(p) => {
            let rest = line.subrange(p as int + 1, line.len() as int);
            match find(rest, seq![':']) {
                Some(q) => rest.subrange(0, q as int),
                None => rest,
            }
        },
    }
}

/// `line` opens a section: it starts with `##` (or `###`).
pub open spec fn is_section_line(line: Seq<char>) -> bool {
    starts_with(line, "##"@) || starts_with(line, "###"@)
}

/// The lines of a task section from line `i` on, gathered into `st`; with the
/// line where the section ends.
pub open spec fn task_scan(ls: Seq<Seq<char>>, i: nat, st: TaskModel) -> (TaskModel, nat)
    decreases ls.len() - i,
{
    if i >= ls.len() {
        (st, i)
    } else {
        let line = trim(ls[i as int]);
        if is_section_line(line) {
            (st, i)
        } else if starts_with(line, "- **"@) && find(line, "**:"@) is Some {
            let rest = trim(line.subrange("- **"@.len() as int, line.len() as int));
            match find(rest, "**:"@) {
                None => task_scan(ls, i + 1, st),
                Some(p) => {
                    let key = lowercase(trim(rest.subrange(0, p as int)));
                    let value = trim(rest.subrange(p as int + "**:"@.len(), rest.len() as int));
                    if key == "type"@ {
                        task_scan(ls, i + 1, TaskModel { task_type: string_value_of(value), ..st })
                    } else if key == "command"@ {
                        task_scan(ls, i + 1, TaskModel { command: Some(string_value_of(value)), ..st })
                    } else if key == "args"@ {
                        task_scan(ls, i + 1, TaskModel { args: array_value_of(value), ..st })
                    } else if key == "depends_on"@ || key == "depends on"@ {
                        task_scan(ls, i + 1, TaskModel { depends_on: depends_of(value), ..st })
                    } else if key == "condition"@ {
                        task_scan(ls, i + 1, TaskModel { condition: Some(string_value_of(value)), ..st })
                    } else if key == "environment"@ {
                        let (env, j) = nested_scan(ls, i + 1, seq![]);
                        proof {
                            lemma_nested_scan_end(ls, i + 1, seq![]);
                        }
                        task_scan(ls, j, TaskModel { environment: env, ..st })
                    } else {
                        task_scan(ls, i + 1, TaskModel { extra: insert_entry(st.extra, key, value_of(value)), ..st })
                    }
                },
            }
        } else if starts_with(line, "Depends on:"@) || starts_with(line, "depends on:"@) {
            task_scan(ls, i + 1, TaskModel { depends_on: depends_of(trim(second_field(line))), ..st })
        } else if line.len() > 0 && !starts_with(line, "-"@) {
            task_scan(ls, i + 1, TaskModel { description: joined(st.description, line), ..st })
        } else {
            task_scan(ls, i + 1, st)
        }
    }
}

/// The heading text of a `## ` or `### ` line.
pub open spec fn heading_of(line: Seq<char>) -> Seq<char> {
    if starts_with(line, "## "@) {
        trim(line.subrange("## "@.len() as int, line.len() as int))
    } else {
        trim(line.subrange("### "@.len() as int, line.len() as int))
    }
}

/// `o` holds a string exactly when `m` holds one, with the same characters.
pub open spec fn opt_is(o: Option<String>, m: Option<Seq<char>>) -> bool {
    match m {
        Some(t) => o matches Some(x) && x@ == t,
        None => o is None,
    }
}

/// `t` is the task with heading `heading` whose section gathered `st`.
pub open spec fn task_is(t: PomlTask, heading: Seq<char>, st: TaskModel) -> bool {
    &&& t.id@ == task_id(heading)
    &&& t.name@ == heading
    &&& t.description@ == trim(st.description)
    &&& t.task_type@ == st.task_type
    &&& opt_is(t.command, st.command)
    &&& strings_are(t.args@, st.args)
    &&& pairs_are(t.environment@, st.environment)
    &&& strings_are(t.depends_on@, st.depends_on)
    &&& opt_is(t.condition, st.condition)
    &&& entries_are(t.extra@, st.extra)
}

/// The running values of a task section are those `st` describes.
pub open spec fn state_is(
    description: Seq<char>,
    task_type: Seq<char>,
    command: Option<String>,
    args: Seq<String>,
    environment: Seq<(String, String)>,
    depends_on: Seq<String>,
    condition: Option<String>,
    extra: Seq<(String, JsonValue)>,
    st: TaskModel,
) -> bool {
    &&& description == st.description
    &&& task_type == st.task_type
    &&& opt_is(command, st.command)
    &&& strings_are(args, st.args)
    &&& pairs_are(environment, st.environment)
    &&& strings_are(depends_on, st.depends_on)
    &&& opt_is(condition, st.condition)
    &&& entries_are(extra, st.extra)
}

fn is_word(s: &String, w: &str) -> (r: bool)
    ensures
        r == (s@ == w@),
{
    *s == String::from_str(w)
}

fn vec_text(s: &[char]) -> (r: Vec<char>)
    ensures
        r@ == s@,
{
    vstd::slice::slice_to_vec(s)
}

/// The task whose heading is line `start`, and the line where its section
/// ends.
fn parse_task_section(lines: &Vec<Vec<char>>, start: usize) -> (r: (PomlTask, usize))
    requires
        start < lines@.len(),
        starts_with(trim(lines@[start as int]@), "## "@) || starts_with(trim(lines@[start as int]@), "### "@),
    ensures
        task_is(r.0, heading_of(trim(lines@[start as int]@)), task_scan(line_views(lines@), (start + 1) as nat, fresh_task()).0),
        r.1 == task_scan(line_views(lines@), (start + 1) as nat, fresh_task()).1,
{
    let ghost ls = line_views(lines@);
    let line_count = lines.len();
    let heading_line = trim_chars(lines[start].as_slice());
    let h2s = chars_of("## ");
    let h3s = chars_of("### ");
    let heading = if starts_with_chars(heading_line.as_slice(), h2s.as_slice()) {
        trim_chars(&heading_line[h2s.len()..heading_line.len()])
    } else {
        trim_chars(&heading_line[h3s.len()..heading_line.len()])
    };
    let id = make_task_id(heading.as_slice());

    let mut description: Vec<char> = Vec::new();
    let mut task_type: Vec<char> = chars_of("command");
    let mut command: Option<String> = None;
    let mut args: Vec<String> = Vec::new();
    let mut environment: Vec<(String, String)> = Vec::new();
    let mut depends_on: Vec<String> = Vec::new();
    let mut condition: Option<String> = None;
    let mut extra: Vec<(String, JsonValue)> = Vec::new();
    let ghost st = fresh_task();

    let h2 = chars_of("##");
    let h3 = chars_of("###");
    let bold_item = chars_of("- **");
    let bold_colon = chars_of("**:");
    let dep_upper = chars_of("Depends on:");
    let dep_lower = chars_of("depends on:");
    let dash = chars_of("-");
    let colon = [':'];
    proof {
        assert(colon@ =~= seq![':']);
    }
    let mut i = start + 1;
    while i < lines.len()
        invariant
            ls == line_views(lines@),
            start < i,
            h2@ == "##"@,
            h3@ == "###"@,
            bold_item@ == "- **"@,
            bold_colon@ == "**:"@,
            dep_upper@ == "Depends on:"@,
            dep_lower@ == "depends on:"@,
            dash@ == "-"@,
            colon@ == seq![':'],
            state_is(description@, task_type@, command, args@, environment@, depends_on@, condition, extra@, st),
            task_scan(ls, (start + 1) as nat, fresh_task()) == task_scan(ls, i as nat, st),
        ensures
            state_is(description@, task_type@, command, args@, environment@, depends_on@, condition, extra@, st),
            task_scan(ls, (start + 1) as nat, fresh_task()) == (st, i as nat),
        decreases lines@.len() - i,
    {
        let line = trim_chars(lines[i].as_slice());
        assert(line@ == trim(ls[i as int]));
        if starts_with_chars(line.as_slice(), h2.as_slice()) || starts_with_chars(line.as_slice(), h3.as_slice()) {
            break;
        }
        let mut next = i + 1;
        if starts_with_chars(line.as_slice(), bold_item.as_slice()) && find_chars(line.as_slice(), bold_colon.as_slice()).is_some() {
            let rest = trim_chars(&line[bold_item.len()..line.len()]);
            let rest_len = rest.len();
            match find_chars(rest.as_slice(), bold_colon.as_slice()) {
                Some(p) => {
                    proof {
                        lemma_find_from_bound(rest@, bold_colon@, 0);
                    }
                    assert(p + bold_colon@.len() <= rest_len);
                    let key_text = trim_chars(&rest[0..p]);
                    let key = to_lowercase(text_of(key_text.as_slice()).as_str());
                    let raw = trim_chars(&rest[p + bold_colon.len()..rest.len()]);
                    if is_word(&key, "type") {
                        task_type = parse_string_value(raw.as_slice());
                        proof { st = TaskModel { task_type: string_value_of(raw@), ..st }; }
                    } else if is_word(&key, "command") {
                        command = Some(text_of(parse_string_value(raw.as_slice()).as_slice()));
                        proof { st = TaskModel { command: Some(string_value_of(raw@)), ..st }; }
                    } else if is_word(&key, "args") {
                        args = parse_array_value(raw.as_slice());
                        proof { st = TaskModel { args: array_value_of(raw@), ..st }; }
                    } else if is_word(&key, "depends_on") || is_word(&key, "depends on") {
                        depends_on = parse_depends_on(raw.as_slice());
                        proof { st = TaskModel { depends_on: depends_of(raw@), ..st }; }
                    } else if is_word(&key, "condition") {
                        condition = Some(text_of(parse_string_value(raw.as_slice()).as_slice()));
                        proof { st = TaskModel { condition: Some(string_value_of(raw@)), ..st }; }
                    } else if is_word(&key, "environment") {
                        let (env, j) = parse_nested_list(lines, i + 1);
                        proof {
                            lemma_nested_scan_end(ls, (i + 1) as nat, seq![]);
                        }
                        environment = env;
                        next = j;
                        proof { st = TaskModel { environment: nested_scan(ls, (i + 1) as nat, seq![]).0, ..st }; }
                    } else {
                        let val = parse_value(raw.as_slice());
                        insert_value(&mut extra, key, val, Ghost(st.extra), Ghost(value_of(raw@)));
                        proof { st = TaskModel { extra: insert_entry(st.extra, lowercase(key_text@), value_of(raw@)), ..st }; }
                    }
                },
                None => {},
            }
        } else if starts_with_chars(line.as_slice(), dep_upper.as_slice()) || starts_with_chars(line.as_slice(), dep_lower.as_slice()) {
            let field = second_field_of(line.as_slice());
            let deps_text = trim_chars(field.as_slice());
            depends_on = parse_depends_on(deps_text.as_slice());
            proof { st = TaskModel { depends_on: depends_of(trim(second_field(line@))), ..st }; }
        } else if line.len() > 0 && !starts_with_chars(line.as_slice(), dash.as_slice()) {
            if description.len() > 0 {
                description.push('\n');
            }
            let mut piece = vec_text(line.as_slice());
            description.append(&mut piece);
            proof {
                assert(description@ =~= joined(st.description, line@));
                st = TaskModel { description: joined(st.description, line@), ..st };
            }
        }
        i = next;
    }
    let task = PomlTask {
        id: text_of(id.as_slice()),
        name: text_of(heading.as_slice()),
        description: text_of(trim_chars(description.as_slice()).as_slice()),
        task_type: text_of(task_type.as_slice()),
        command,
        args,
        environment,
        depends_on,
        condition,
        extra,
    };
    (task, i)
}

/// `line.split(':').nth(1).unwrap_or("")`.
fn second_field_of(line: &[char]) -> (r: Vec<char>)
    ensures
        r@ == second_field(line@),
{
    let colon = [':'];
    proof {
        assert(colon@ =~= seq![':']);
    }
    match find_chars(line, &colon) {
        None => Vec::new(),
        Some(p) => {
            proof {
                lemma_find_from_bound(line@, seq![':'], 0);
            }
            let n = line.len();
            assert(p < n);
            let rest = vec_text(&line[p + 1..n]);
            match find_chars(rest.as_slice(), &colon) {
                Some(q) => {
                    proof {
                        lemma_find_from_bound(rest@, seq![':'], 0);
                    }
                    vec_text(&rest[0..q])
                },
                None => rest,
            }
        },
    }
}

pub proof fn lemma_task_scan_end(ls: Seq<Seq<char>>, i: nat, st: TaskModel)
    ensures
        task_scan(ls, i, st).1 >= i,
        i <= ls.len() ==> task_scan(ls, i, st).1 <= ls.len(),
    decreases ls.len() - i,
{
    if i < ls.len() {
        let line = trim(ls[i as int]);
        if is_section_line(line) {
        } else if starts_with(line, "- **"@) && find(line, "**:"@) is Some {
            let rest = trim(line.subrange("- **"@.len() as int, line.len() as int));
            match find(rest, "**:"@) {
                None => lemma_task_scan_end(ls, i + 1, st),
                Some(p) => {
                    let key = lowercase(trim(rest.subrange(0, p as int)));
                    let value = trim(rest.subrange(p as int + "**:"@.len(), rest.len() as int));
                    if key == "type"@ {
                        lemma_task_scan_end(ls, i + 1, TaskModel { task_type: string_value_of(value), ..st });
                    } else if key == "command"@ {
                        lemma_task_scan_end(ls, i + 1, TaskModel { command: Some(string_value_of(value)), ..st });
                    } else if key == "args"@ {
                        lemma_task_scan_end(ls, i + 1, TaskModel { args: array_value_of(value), ..st });
                    } else if key == "depends_on"@ || key == "depends on"@ {
                        lemma_task_scan_end(ls, i + 1, TaskModel { depends_on: depends_of(value), ..st });
                    } else if key == "condition"@ {
                        lemma_task_scan_end(ls, i + 1, TaskModel { condition: Some(string_value_of(value)), ..st });
                    } else if key == "environment"@ {
                        let (env, j) = nested_scan(ls, i + 1, seq![]);
                        lemma_nested_scan_end(ls, i + 1, seq![]);
                        lemma_task_scan_end(ls, j, TaskModel { environment: env, ..st });
                    } else {
                        lemma_task_scan_end(ls, i + 1, TaskModel { extra: insert_entry(st.extra, key, value_of(value)), ..st });
                    }
                },
            }
        } else if starts_with(line, "Depends on:"@) || starts_with(line, "depends on:"@) {
            lemma_task_scan_end(ls, i + 1, TaskModel { depends_on: depends_of(trim(second_field(line))), ..st });
        } else if line.len() > 0 && !starts_with(line, "-"@) {
            lemma_task_scan_end(ls, i + 1, TaskModel { description: joined(st.description, line), ..st });
        } else {
            lemma_task_scan_end(ls, i + 1, st);
        }
    }
}

pub proof fn lemma_config_scan_end(
    ls: Seq<Seq<char>>,
    i: nat,
    entries: Seq<(Seq<char>, ValueModel)>,
    in_code: bool,
    code: Seq<char>,
)
    ensures
        config_scan(ls, i, entries, in_code, code) matches Ok((_, j)) ==> j >= i && (i <= ls.len() ==> j <= ls.len()),
    decreases ls.len() - i,
{
    if i < ls.len() {
        let line = trim(ls[i as int]);
        if (starts_with(line, "##"@) || starts_with(line, "###"@)) && !in_code {
        } else if starts_with(line, "```"@) {
            if in_code {
                if trim(code).len() > 0 {
                    match json_object_members(code) {
                        Err(m) => {},
                        Ok(ms) => lemma_config_scan_end(ls, i + 1, insert_members(entries, ms), false, seq![]),
                    }
                } else {
                    lemma_config_scan_end(ls, i + 1, entries, false, seq![]);
                }
            } else {
                lemma_config_scan_end(ls, i + 1, entries, true, code);
            }
        } else if in_code {
            lemma_config_scan_end(ls, i + 1, entries, true, code + line.push('\n'));
        } else if starts_with(line, "- "@) {
            let item = trim(line.subrange("- "@.len() as int, line.len() as int));
            match find(item, seq![':']) {
                Some(p) => lemma_config_scan_end(
                    ls,
                    i + 1,
                    insert_entry(
                        entries,
                        trim(item.subrange(0, p as int)),
                        value_of(trim(item.subrange(p as int + 1, item.len() as int))),
                    ),
                    in_code,
                    code,
                ),
                None => lemma_config_scan_end(ls, i + 1, entries, in_code, code),
            }
        } else {
            lemma_config_scan_end(ls, i + 1, entries, in_code, code);
        }
    }
}

/// The description lines from line `i` on, up to the first section line,
/// joined by line feeds onto `acc`; with the line where they end.
pub open spec fn description_scan(ls: Seq<Seq<char>>, i: nat, acc: Seq<char>) -> (Seq<char>, nat)
    decreases ls.len() - i,
{
    if i >= ls.len() {
        (acc, i)
    } else {
        let line = trim(ls[i as int]);
        if is_section_line(line) {
            (acc, i)
        } else {
            description_scan(ls, i + 1, joined(acc, line))
        }
    }
}

/// The sections from line `i` on: the configuration (the last configuration
/// section replaces earlier ones) and the tasks with their headings.
pub open spec fn section_scan(
    ls: Seq<Seq<char>>,
    i: nat,
    config: Seq<(Seq<char>, ValueModel)>,
    tasks: Seq<(Seq<char>, TaskModel)>,
) -> Result<(Seq<(Seq<char>, ValueModel)>, Seq<(Seq<char>, TaskModel)>), PomlFailure>
    decreases ls.len() - i,
{
    if i >= ls.len() {
        Ok((config, tasks))
    } else {
        let line = trim(ls[i as int]);
        if starts_with(line, "## "@) || starts_with(line, "### "@) {
            let heading = heading_of(line);
            if eq_ignore_ascii_case(heading, "configuration"@) || eq_ignore_ascii_case(heading, "config"@) {
                match config_scan(ls, i + 1, seq![], false, seq![]) {
                    Err(e) => Err(e),
                    Ok((c, j)) => {
                        proof {
                            lemma_config_scan_end(ls, i + 1, seq![], false, seq![]);
                        }
                        section_scan(ls, j, c, tasks)
                    },
                }
            } else {
                let (st, j) = task_scan(ls, i + 1, fresh_task());
                proof {
                    lemma_task_scan_end(ls, i + 1, fresh_task());
                }
                section_scan(ls, j, config, tasks.push((heading, st)))
            }
        } else {
            section_scan(ls, i + 1, config, tasks)
        }
    }
}

/// The frontmatter text and the body text of a document: the text between
/// an opening `---` (after leading white space) and the first line starting
/// with `---`, and the text after that, each trimmed.
pub open spec fn frontmatter_of(content: Seq<char>) -> Result<(Seq<char>, Seq<char>), PomlFailure> {
    let c = trim_start(content);
    if !starts_with(c, "---"@) {
        Err(PomlFailure::MissingField("frontmatter"@))
    } else {
        let rest = c.subrange("---"@.len() as int, c.len() as int);
        match find(rest, "\n---"@) {
            Some(p) => Ok(
                (
                    trim(rest.subrange(0, p as int)),
                    trim(rest.subrange(p as int + "\n---"@.len(), rest.len() as int)),
                ),
            ),
            None => Err(PomlFailure::InvalidFrontmatter("missing closing ---"@)),
        }
    }
}

/// The job name from the first line at or after `i` that starts with `# `,
/// and the line after it.
pub open spec fn job_name_scan(ls: Seq<Seq<char>>, i: nat) -> Result<(Seq<char>, nat), PomlFailure>
    decreases ls.len() - i,
{
    if i >= ls.len() {
        Err(PomlFailure::MissingField("job name (H1 heading)"@))
    } else if starts_with(ls[i as int], "# "@) {
        Ok((trim(ls[i as int].subrange("# "@.len() as int, ls[i as int].len() as int)), i + 1))
    } else {
        job_name_scan(ls, i + 1)
    }
}

/// What a document body holds besides the metadata.
pub struct BodyModel {
    pub name: Seq<char>,
    pub description: Seq<char>,
    pub config: Seq<(Seq<char>, ValueModel)>,
    pub tasks: Seq<(Seq<char>, TaskModel)>,
}

/// The job name, description, configuration and tasks of a document body.
pub open spec fn body_of(body: Seq<char>) -> Result<BodyModel, PomlFailure> {
    let ls = lines(body);
    match job_name_scan(ls, 0) {
        Err(e) => Err(e),
        Ok((name, ds)) => {
            let (desc, de) = description_scan(ls, ds, seq![]);
            match section_scan(ls, de, seq![], seq![]) {
                Err(e) => Err(e),
                Ok((config, tasks)) => Ok(
                    BodyModel { name, description: trim(desc), config, tasks },
                ),
            }
        },
    }
}

/// The tasks of `v` are, in order, those `m` describes.
pub open spec fn tasks_are(v: Seq<PomlTask>, m: Seq<(Seq<char>, TaskModel)>) -> bool {
    v.len() == m.len() && forall|i: int| 0 <= i < v.len() ==> task_is(#[trigger] v[i], m[i].0, m[i].1)
}

/// `d` holds what `m` describes, besides its metadata.
pub open spec fn document_is(d: PomlDocument, m: BodyModel) -> bool {
    &&& d.name@ == m.name
    &&& d.description@ == m.description
    &&& entries_are(d.config@, m.config)
    &&& tasks_are(d.tasks@, m.tasks)
}

fn message(text: &str) -> (r: String)
    ensures
        r@ == text@,
{
    String::from_str(text)
}

/// The frontmatter and body texts of `content`.
fn extract_frontmatter(content: &str) -> (r: Result<(Vec<char>, Vec<char>), PomlError>)
    ensures
        match frontmatter_of(content@) {
            Ok((f, b)) => r matches Ok((x, y)) && x@ == f && y@ == b,
            Err(e) => r matches Err(x) && x@ == e,
        },
{
    let all = chars_of(content);
    let c = trim_start_chars(all.as_slice());
    let open = chars_of("---");
    if !starts_with_chars(c.as_slice(), open.as_slice()) {
        return Err(PomlError::MissingField(message("frontmatter")));
    }
    let rest = vec_text(&c[open.len()..c.len()]);
    let close = chars_of("\n---");
    let rest_len = rest.len();
    match find_chars(rest.as_slice(), close.as_slice()) {
        Some(p) => {
            proof {
                lemma_find_from_bound(rest@, close@, 0);
            }
            assert(p + close@.len() <= rest_len);
            let front = trim_chars(&rest[0..p]);
            let body = trim_chars(&rest[p + close.len()..rest.len()]);
            Ok((front, body))
        },
        None => Err(PomlError::InvalidFrontmatter(message("missing closing ---"))),
    }
}

/// The job name, from the first `# ` heading, and the line after it.
fn extract_job_name(lines: &Vec<Vec<char>>) -> (r: Result<(Vec<char>, usize), PomlError>)
    ensures
        match job_name_scan(line_views(lines@), 0) {
            Ok((name, j)) => r matches Ok((x, k)) && x@ == name && k == j,
            Err(e) => r matches Err(x) && x@ == e,
        },
{
    let ghost ls = line_views(lines@);
    let h1 = chars_of("# ");
    let mut i: usize = 0;
    while i < lines.len()
        invariant
            ls == line_views(lines@),
            h1@ == "# "@,
            job_name_scan(ls, 0) == job_name_scan(ls, i as nat),
        decreases lines@.len() - i,
    {
        if starts_with_chars(lines[i].as_slice(), h1.as_slice()) {
            let name = trim_chars(&lines[i][h1.len()..lines[i].len()]);
            return Ok((name, i + 1));
        }
        i = i + 1;
    }
    Err(PomlError::MissingField(message("job name (H1 heading)")))
}

/// The description that starts at line `start`.
fn parse_description(lines: &Vec<Vec<char>>, start: usize) -> (r: (Vec<char>, usize))
    ensures
        r.0@ == description_scan(line_views(lines@), start as nat, seq![]).0,
        r.1 == description_scan(line_views(lines@), start as nat, seq![]).1,
{
    let ghost ls = line_views(lines@);
    let h2 = chars_of("##");
    let h3 = chars_of("###");
    let mut text: Vec<char> = Vec::new();
    let mut i = start;
    while i < lines.len()
        invariant
            ls == line_views(lines@),
            h2@ == "##"@,
            h3@ == "###"@,
            description_scan(ls, start as nat, seq![]) == description_scan(ls, i as nat, text@),
        decreases lines@.len() - i,
    {
        let line = trim_chars(lines[i].as_slice());
        assert(line@ == trim(ls[i as int]));
        if starts_with_chars(line.as_slice(), h2.as_slice()) || starts_with_chars(line.as_slice(), h3.as_slice()) {
            return (text, i);
        }
        let ghost before = text@;
        if text.len() > 0 {
            text.push('\n');
        }
        let mut piece = vec_text(line.as_slice());
        text.append(&mut piece);
        assert(text@ =~= joined(before, line@));
        i = i + 1;
    }
    (text, i)
}

/// The sections of a body from the end of its description on: the
/// configuration and the tasks.
fn parse_sections(lines: &Vec<Vec<char>>, start: usize) -> (r: Result<(Vec<(String, JsonValue)>, Vec<PomlTask>), PomlError>)
    ensures
        match section_scan(line_views(lines@), start as nat, seq![], seq![]) {
            Ok((c, t)) => r matches Ok((x, y)) && entries_are(x@, c) && tasks_are(y@, t),
            Err(e) => r matches Err(x) && x@ == e,
        },
{
    let ghost ls = line_views(lines@);
    let mut config: Vec<(String, JsonValue)> = Vec::new();
    let mut tasks: Vec<PomlTask> = Vec::new();
    let ghost gc: Seq<(Seq<char>, ValueModel)> = seq![];
    let ghost gt: Seq<(Seq<char>, TaskModel)> = seq![];
    let h2s = chars_of("## ");
    let h3s = chars_of("### ");
    let configuration = chars_of("configuration");
    let config_word = chars_of("config");
    let mut i = start;
    while i < lines.len()
        invariant
            ls == line_views(lines@),
            h2s@ == "## "@,
            h3s@ == "### "@,
            configuration@ == "configuration"@,
            config_word@ == "config"@,
            entries_are(config@, gc),
            tasks_are(tasks@, gt),
            section_scan(ls, start as nat, seq![], seq![]) == section_scan(ls, i as nat, gc, gt),
        decreases lines@.len() - i,
    {
        let line = trim_chars(lines[i].as_slice());
        assert(line@ == trim(ls[i as int]));
        let is_h2 = starts_with_chars(line.as_slice(), h2s.as_slice());
        if is_h2 || starts_with_chars(line.as_slice(), h3s.as_slice()) {
            let heading = if is_h2 {
                trim_chars(&line[h2s.len()..line.len()])
            } else {
                trim_chars(&line[h3s.len()..line.len()])
            };
            assert(heading@ == heading_of(line@));
            if eq_ignore_ascii_case_chars(heading.as_slice(), configuration.as_slice())
                || eq_ignore_ascii_case_chars(heading.as_slice(), config_word.as_slice()) {
                match parse_config_section(lines, i + 1) {
                    Err(e) => {
                        return Err(e);
                    },
                    Ok((parsed, next)) => {
                        proof {
                            lemma_config_scan_end(ls, (i + 1) as nat, seq![], false, seq![]);
                            gc = config_scan(ls, (i + 1) as nat, seq![], false, seq![])->Ok_0.0;
                        }
                        config = parsed;
                        i = next;
                    },
                }
            } else {
                let (task, next) = parse_task_section(lines, i);
                proof {
                    lemma_task_scan_end(ls, (i + 1) as nat, fresh_task());
                    let st = task_scan(ls, (i + 1) as nat, fresh_task()).0;
                    gt = gt.push((heading@, st));
                }
                let ghost before = tasks@;
                let ghost added = task;
                tasks.push(task);
                proof {
                    assert(tasks@ == before.push(added));
                    assert forall|k: int| 0 <= k < tasks@.len() implies task_is(#[trigger] tasks@[k], gt[k].0, gt[k].1) by {
                        if k < tasks@.len() - 1 {
                            assert(tasks@[k] == before[k]);
                        }
                    }
                }
                i = next;
            }
        } else {
            i = i + 1;
        }
    }
    Ok((config, tasks))
}

/// What parsing ends with once the frontmatter reader answered `m` and the
/// body text is `body`.
pub open spec fn parse_outcome(r: Result<PomlDocument, PomlError>, m: Result<PomlMetadata, PomlError>, body: Seq<char>) -> bool {
    match m {
        Err(e) => r == Err::<PomlDocument, PomlError>(e),
        Ok(md) => match body_of(body) {
            Ok(b) => r matches Ok(d) && d.metadata == md && document_is(d, b),
            Err(e) => r matches Err(x) && x@ == e,
        },
    }
}

/// POML parser.
pub struct PomlParser;

impl PomlParser {
    /// Parse a POML document from a string.
    ///
    /// The frontmatter text is handed to `read_frontmatter`, which reads the
    /// job metadata from it (its YAML), or reports why it cannot.
    pub fn parse<F>(content: &str, read_frontmatter: F) -> (r: Result<PomlDocument, PomlError>) where
        F: FnOnce(String) -> Result<PomlMetadata, PomlError>,

        requires
            forall|s: String| call_requires(read_frontmatter, (s,)),
        ensures
            match frontmatter_of(content@) {
                Err(e) => r matches Err(x) && x@ == e,
                Ok((front, body)) => exists|s: String, m: Result<PomlMetadata, PomlError>|
                    #![trigger call_ensures(read_frontmatter, (s,), m)]
                    s@ == front && call_ensures(read_frontmatter, (s,), m) && parse_outcome(r, m, body),
            },
    {
        let (front, body) = match extract_frontmatter(content) {
            Ok(parts) => parts,
            Err(e) => {
                return Err(e);
            },
        };
        let front_text = text_of(front.as_slice());
        let ghost s = front_text;
        let m = read_frontmatter(front_text);
        let ghost gm = m;
        let metadata = match m {
            Ok(md) => md,
            Err(e) => {
                assert(parse_outcome(Err(e), gm, body@));
                return Err(e);
            },
        };
        let body_lines = lines_of(body.as_slice());
        assert(line_views(body_lines@) =~= lines(body@));
        let (name, ds) = match extract_job_name(&body_lines) {
            Ok(found) => found,
            Err(e) => {
                return Err(e);
            },
        };
        let (desc, de) = parse_description(&body_lines, ds);
        let (config, tasks) = match parse_sections(&body_lines, de) {
            Ok(parsed) => parsed,
            Err(e) => {
                return Err(e);
            },
        };
        let doc = PomlDocument {
            metadata,
            name: text_of(name.as_slice()),
            description: text_of(trim_chars(desc.as_slice()).as_slice()),
            config,
            tasks,
        };
        Ok(doc)
    }
}

/// No two entries share a key.
pub open spec fn keys_distinct<V>(entries: Seq<(Seq<char>, V)>) -> bool {
    forall|i: int, j: int| 0 <= i < j < entries.len() ==> entries[i].0 != entries[j].0
}

proof fn lemma_insert_entry_distinct<V>(entries: Seq<(Seq<char>, V)>, k: Seq<char>, v: V)
    requires
        keys_distinct(entries),
    ensures
        keys_distinct(insert_entry(entries, k, v)),
{
    let r = insert_entry(entries, k, v);
    match key_position(entries, k) {
        Some(p) => {
            assert(entries[p].0 == k);
            assert forall|i: int, j: int| 0 <= i < j < r.len() implies r[i].0 != r[j].0 by {
                assert(r[i].0 == entries[i].0);
                assert(r[j].0 == entries[j].0);
            }
        },
        None => {
            assert forall|i: int, j: int| 0 <= i < j < r.len() implies r[i].0 != r[j].0 by {
                if j == entries.len() {
                    assert(r[i].0 == entries[i].0);
                }
            }
        },
    }
}

proof fn lemma_insert_members_distinct(entries: Seq<(Seq<char>, ValueModel)>, ms: Seq<(String, JsonValue)>)
    requires
        keys_distinct(entries),
    ensures
        keys_distinct(insert_members(entries, ms)),
    decreases ms.len(),
{
    if ms.len() > 0 {
        lemma_insert_members_distinct(entries, ms.drop_last());
        lemma_insert_entry_distinct(
            insert_members(entries, ms.drop_last()),
            ms.last().0@,
            ValueModel::Json(ms.last().1),
        );
    }
}

proof fn lemma_config_scan_distinct(
    ls: Seq<Seq<char>>,
    i: nat,
    entries: Seq<(Seq<char>, ValueModel)>,
    in_code: bool,
    code: Seq<char>,
)
    requires
        keys_distinct(entries),
    ensures
        config_scan(ls, i, entries, in_code, code) matches Ok((c, _)) ==> keys_distinct(c),
    decreases ls.len() - i,
{
    if i < ls.len() {
        let line = trim(ls[i as int]);
        if (starts_with(line, "##"@) || starts_with(line, "###"@)) && !in_code {
        } else if starts_with(line, "```"@) {
            if in_code {
                if trim(code).len() > 0 {
                    if let Ok(ms) = json_object_members(code) {
                        lemma_insert_members_distinct(entries, ms);
                        lemma_config_scan_distinct(ls, i + 1, insert_members(entries, ms), false, seq![]);
                    }
                } else {
                    lemma_config_scan_distinct(ls, i + 1, entries, false, seq![]);
                }
            } else {
                lemma_config_scan_distinct(ls, i + 1, entries, true, code);
            }
        } else if in_code {
            lemma_config_scan_distinct(ls, i + 1, entries, true, code + line.push('\n'));
        } else if starts_with(line, "- "@) {
            let item = trim(line.subrange("- "@.len() as int, line.len() as int));
            match find(item, seq![':']) {
                Some(p) => {
                    let k = trim(item.subrange(0, p as int));
                    let v = value_of(trim(item.subrange(p as int + 1, item.len() as int)));
                    lemma_insert_entry_distinct(entries, k, v);
                    lemma_config_scan_distinct(ls, i + 1, insert_entry(entries, k, v), in_code, code);
                },
                None => lemma_config_scan_distinct(ls, i + 1, entries, in_code, code),
            }
        } else {
            lemma_config_scan_distinct(ls, i + 1, entries, in_code, code);
        }
    }
}

proof fn lemma_nested_scan_distinct(ls: Seq<Seq<char>>, i: nat, env: Seq<(Seq<char>, Seq<char>)>)
    requires
        keys_distinct(env),
    ensures
        keys_distinct(nested_scan(ls, i, env).0),
    decreases ls.len() - i,
{
    if i < ls.len() {
        let raw = ls[i as int];
        if starts_with(raw, "  - "@) {
            let item = trim(raw.subrange("  - "@.len() as int, raw.len() as int));
            match find(item, seq![':']) {
                Some(p) => {
                    let k = trim(item.subrange(0, p as int));
                    let v = trim(item.subrange(p as int + 1, item.len() as int));
                    lemma_insert_entry_distinct(env, k, v);
                    lemma_nested_scan_distinct(ls, i + 1, insert_entry(env, k, v));
                },
                None => lemma_nested_scan_distinct(ls, i + 1, env),
            }
        } else if trim(raw).len() == 0 {
            lemma_nested_scan_distinct(ls, i + 1, env);
        }
    }
}

/// A task's environment names are distinct, and so are its extra keys.
pub open spec fn task_keys_distinct(st: TaskModel) -> bool {
    keys_distinct(st.environment) && keys_distinct(st.extra)
}

proof fn lemma_task_scan_distinct(ls: Seq<Seq<char>>, i: nat, st: TaskModel)
    requires
        task_keys_distinct(st),
    ensures
        task_keys_distinct(task_scan(ls, i, st).0),
    decreases ls.len() - i,
{
    if i < ls.len() {
        let line = trim(ls[i as int]);
        if is_section_line(line) {
        } else if starts_with(line, "- **"@) && find(line, "**:"@) is Some {
            let rest = trim(line.subrange("- **"@.len() as int, line.len() as int));
            match find(rest, "**:"@) {
                None => lemma_task_scan_distinct(ls, i + 1, st),
                Some(p) => {
                    let key = lowercase(trim(rest.subrange(0, p as int)));
                    let value = trim(rest.subrange(p as int + "**:"@.len(), rest.len() as int));
                    if key == "type"@ {
                        lemma_task_scan_distinct(ls, i + 1, TaskModel { task_type: string_value_of(value), ..st });
                    } else if key == "command"@ {
                        lemma_task_scan_distinct(ls, i + 1, TaskModel { command: Some(string_value_of(value)), ..st });
                    } else if key == "args"@ {
                        lemma_task_scan_distinct(ls, i + 1, TaskModel { args: array_value_of(value), ..st });
                    } else if key == "depends_on"@ || key == "depends on"@ {
                        lemma_task_scan_distinct(ls, i + 1, TaskModel { depends_on: depends_of(value), ..st });
                    } else if key == "condition"@ {
                        lemma_task_scan_distinct(ls, i + 1, TaskModel { condition: Some(string_value_of(value)), ..st });
                    } else if key == "environment"@ {
                        let (env, j) = nested_scan(ls, i + 1, seq![]);
                        lemma_nested_scan_end(ls, i + 1, seq![]);
                        lemma_nested_scan_distinct(ls, i + 1, seq![]);
                        lemma_task_scan_distinct(ls, j, TaskModel { environment: env, ..st });
                    } else {
                        lemma_insert_entry_distinct(st.extra, key, value_of(value));
                        lemma_task_scan_distinct(
                            ls,
                            i + 1,
                            TaskModel { extra: insert_entry(st.extra, key, value_of(value)), ..st },
                        );
                    }
                },
            }
        } else if starts_with(line, "Depends on:"@) || starts_with(line, "depends on:"@) {
            lemma_task_scan_distinct(
                ls,
                i + 1,
                TaskModel { depends_on: depends_of(trim(second_field(line))), ..st },
            );
        } else if line.len() > 0 && !starts_with(line, "-"@) {
            lemma_task_scan_distinct(ls, i + 1, TaskModel { description: joined(st.description, line), ..st });
        } else {
            lemma_task_scan_distinct(ls, i + 1, st);
        }
    }
}

proof fn lemma_section_scan_distinct(
    ls: Seq<Seq<char>>,
    i: nat,
    config: Seq<(Seq<char>, ValueModel)>,
    tasks: Seq<(Seq<char>, TaskModel)>,
)
    requires
        keys_distinct(config),
        forall|t: int| 0 <= t < tasks.len() ==> task_keys_distinct(#[trigger] tasks[t].1),
    ensures
        section_scan(ls, i, config, tasks) matches Ok((c, ts)) ==> keys_distinct(c) && forall|t: int|
            0 <= t < ts.len() ==> task_keys_distinct(#[trigger] ts[t].1),
    decreases ls.len() - i,
{
    if i < ls.len() {
        let line = trim(ls[i as int]);
        if starts_with(line, "## "@) || starts_with(line, "### "@) {
            let heading = heading_of(line);
            if eq_ignore_ascii_case(heading, "configuration"@) || eq_ignore_ascii_case(heading, "config"@) {
                lemma_config_scan_distinct(ls, i + 1, seq![], false, seq![]);
                lemma_config_scan_end(ls, i + 1, seq![], false, seq![]);
                if let Ok((c, j)) = config_scan(ls, i + 1, seq![], false, seq![]) {
                    lemma_section_scan_distinct(ls, j, c, tasks);
                }
            } else {
                let (st, j) = task_scan(ls, i + 1, fresh_task());
                lemma_task_scan_end(ls, i + 1, fresh_task());
                lemma_task_scan_distinct(ls, i + 1, fresh_task());
                let next = tasks.push((heading, st));
                assert forall|t: int| 0 <= t < next.len() implies task_keys_distinct(#[trigger] next[t].1) by {
                    if t < tasks.len() {
                        assert(next[t] == tasks[t]);
                    }
                }
                lemma_section_scan_distinct(ls, j, config, next);
            }
        } else {
            lemma_section_scan_distinct(ls, i + 1, config, tasks);
        }
    }
}

/// Keys occur once: in the body of a document, each configuration key, and
/// each environment name and extra key of each task, appears only once; a
/// key given again replaces the earlier value.
pub proof fn lemma_body_keys_distinct(body: Seq<char>)
    ensures
        body_of(body) matches Ok(m) ==> keys_distinct(m.config) && forall|t: int|
            0 <= t < m.tasks.len() ==> task_keys_distinct(#[trigger] m.tasks[t].1),
{
    let ls = lines(body);
    if let Ok((name, ds)) = job_name_scan(ls, 0) {
        let (desc, de) = description_scan(ls, ds, seq![]);
        lemma_section_scan_distinct(ls, de, seq![], seq![]);
    }
}

/// `line` is a `- **type**: ...` item (the key in any case).
pub open spec fn type_item(line: Seq<char>) -> bool {
    let l = trim(line);
    &&& starts_with(l, "- **"@)
    &&& find(l, "**:"@) is Some
    &&& {
        let rest = trim(l.subrange("- **"@.len() as int, l.len() as int));
        match find(rest, "**:"@) {
            Some(p) => lowercase(trim(rest.subrange(0, p as int))) == "type"@,
            None => false,
        }
    }
}

proof fn lemma_task_scan_keeps_type(ls: Seq<Seq<char>>, i: nat, st: TaskModel)
    requires
        forall|j: int| i <= j < ls.len() ==> !type_item(#[trigger] ls[j]),
    ensures
        task_scan(ls, i, st).0.task_type == st.task_type,
    decreases ls.len() - i,
{
    if i < ls.len() {
        let line = trim(ls[i as int]);
        assert(!type_item(ls[i as int]));
        if is_section_line(line) {
        } else if starts_with(line, "- **"@) && find(line, "**:"@) is Some {
            let rest = trim(line.subrange("- **"@.len() as int, line.len() as int));
            match find(rest, "**:"@) {
                None => lemma_task_scan_keeps_type(ls, i + 1, st),
                Some(p) => {
                    let key = lowercase(trim(rest.subrange(0, p as int)));
                    let value = trim(rest.subrange(p as int + "**:"@.len(), rest.len() as int));
                    assert(key != "type"@);
                    if key == "command"@ {
                        lemma_task_scan_keeps_type(ls, i + 1, TaskModel { command: Some(string_value_of(value)), ..st });
                    } else if key == "args"@ {
                        lemma_task_scan_keeps_type(ls, i + 1, TaskModel { args: array_value_of(value), ..st });
                    } else if key == "depends_on"@ || key == "depends on"@ {
                        lemma_task_scan_keeps_type(ls, i + 1, TaskModel { depends_on: depends_of(value), ..st });
                    } else if key == "condition"@ {
                        lemma_task_scan_keeps_type(ls, i + 1, TaskModel { condition: Some(string_value_of(value)), ..st });
                    } else if key == "environment"@ {
                        let (env, j) = nested_scan(ls, i + 1, seq![]);
                        lemma_nested_scan_end(ls, i + 1, seq![]);
                        lemma_task_scan_keeps_type(ls, j, TaskModel { environment: env, ..st });
                    } else {
                        lemma_task_scan_keeps_type(
                            ls,
                            i + 1,
                            TaskModel { extra: insert_entry(st.extra, key, value_of(value)), ..st },
                        );
                    }
                },
            }
        } else if starts_with(line, "Depends on:"@) || starts_with(line, "depends on:"@) {
            lemma_task_scan_keeps_type(
                ls,
                i + 1,
                TaskModel { depends_on: depends_of(trim(second_field(line))), ..st },
            );
        } else if line.len() > 0 && !starts_with(line, "-"@) {
            lemma_task_scan_keeps_type(ls, i + 1, TaskModel { description: joined(st.description, line), ..st });
        } else {
            lemma_task_scan_keeps_type(ls, i + 1, st);
        }
    }
}

/// A task is a command unless it says otherwise: when no line of a task
/// section (from line `i` on) is a `- **type**:` item, the task's type is
/// `"command"`.
pub proof fn lemma_task_type_defaults_to_command(ls: Seq<Seq<char>>, i: nat)
    requires
        forall|j: int| i <= j < ls.len() ==> !type_item(#[trigger] ls[j]),
    ensures
        task_scan(ls, i, fresh_task()).0.task_type == "command"@,
{
    lemma_task_scan_keeps_type(ls, i, fresh_task());
}

proof fn lemma_find_from_at(s: Seq<char>, p: Seq<char>, i: nat, k: nat)
    requires
        i <= k,
        occurs_at(s, p, k as int),
        forall|j: int| i <= j < k ==> !occurs_at(s, p, j),
    ensures
        find_from(s, p, i) == Some(k),
    decreases k - i,
{
    if i < k {
        assert(!occurs_at(s, p, i as int));
        lemma_find_from_at(s, p, i + 1, k);
    }
}

proof fn lemma_find_from_absent(s: Seq<char>, p: Seq<char>, i: nat)
    requires
        forall|j: int| i <= j ==> !occurs_at(s, p, j),
    ensures
        find_from(s, p, i) is None,
    decreases s.len() + 1 - i,
{
    if i + p.len() <= s.len() {
        assert(!occurs_at(s, p, i as int));
        lemma_find_from_absent(s, p, i + 1);
    }
}

proof fn lemma_occurs_char(s: Seq<char>, c: char, j: int)
    ensures
        occurs_at(s, seq![c], j) <==> (0 <= j < s.len() && s[j] == c),
{
    if 0 <= j < s.len() {
        if s[j] == c {
            assert(s.subrange(j, j + 1) =~= seq![c]);
        } else {
            assert(s.subrange(j, j + 1)[0] == s[j]);
        }
    }
}

/// The first position of the character `c` in `s`, when `s` holds it at `k`
/// and not before.
proof fn lemma_find_char(s: Seq<char>, c: char, k: int)
    requires
        0 <= k < s.len(),
        s[k] == c,
        forall|j: int| 0 <= j < k ==> s[j] != c,
    ensures
        find(s, seq![c]) == Some(k as nat),
{
    lemma_occurs_char(s, c, k);
    assert forall|j: int| 0 <= j < k implies !occurs_at(s, seq![c], j) by {
        lemma_occurs_char(s, c, j);
    }
    lemma_find_from_at(s, seq![c], 0, k as nat);
}

/// A markdown link `[text](#anchor)`.
pub open spec fn md_link(text: Seq<char>, anchor: Seq<char>) -> Seq<char> {
    seq!['['] + text + seq![']', '(', '#'] + anchor + seq![')']
}

/// `s` does not hold the character `c`.
pub open spec fn lacks(s: Seq<char>, c: char) -> bool {
    forall|j: int| 0 <= j < s.len() ==> s[j] != c
}

proof fn lemma_find_from_some(s: Seq<char>, p: Seq<char>, i: nat, k: nat)
    requires
        i <= k,
        occurs_at(s, p, k as int),
    ensures
        find_from(s, p, i) is Some,
    decreases k - i,
{
    if i < k && !occurs_at(s, p, i as int) {
        lemma_find_from_some(s, p, i + 1, k);
    }
}

/// Where `find` of a character answers `k`, `s` holds it there and not
/// before.
proof fn lemma_find_char_some(s: Seq<char>, c: char)
    ensures
        match find(s, seq![c]) {
            Some(k) => k < s.len() && s[k as int] == c && forall|j: int| 0 <= j < k ==> s[j] != c,
            None => lacks(s, c),
        },
{
    match find(s, seq![c]) {
        Some(k) => {
            lemma_find_from_bound(s, seq![c], 0);
            lemma_occurs_char(s, c, k as int);
            assert forall|j: int| 0 <= j < k implies s[j] != c by {
                lemma_find_from_first(s, seq![c], 0, j);
                lemma_occurs_char(s, c, j);
            }
        },
        None => {
            assert forall|j: int| 0 <= j < s.len() implies s[j] != c by {
                lemma_occurs_char(s, c, j);
                if s[j] == c {
                    lemma_find_from_some(s, seq![c], 0, j as nat);
                }
            }
        },
    }
}

/// Text without an opening bracket adds no dependency in front of others.
proof fn lemma_link_deps_skip(p: Seq<char>, r: Seq<char>)
    requires
        lacks(p, '['),
    ensures
        link_deps(p + r) == link_deps(r),
{
    let s = p + r;
    let n = p.len() as int;
    lemma_find_char_some(r, '[');
    match find(r, seq!['[']) {
        None => {
            assert(lacks(s, '[')) by {
                assert forall|j: int| 0 <= j < s.len() implies s[j] != '[' by {
                    if j >= n {
                        assert(s[j] == r[j - n]);
                    }
                }
            }
            lemma_find_char_some(s, '[');
        },
        Some(k0) => {
            let k = k0 as int;
            assert(s[n + k] == '[');
            assert forall|j: int| 0 <= j < n + k implies s[j] != '[' by {
                if j >= n {
                    assert(s[j] == r[j - n]);
                }
            }
            lemma_find_char(s, '[', n + k);
            let a = n + k;
            assert(s.subrange(a, s.len() as int) =~= r.subrange(k, r.len() as int));
            let from = r.subrange(k, r.len() as int);
            lemma_find_char_some(from, ']');
            match find(from, seq![']']) {
                None => {},
                Some(e0) => {
                    let e = e0 as int;
                    assert(from[0] == '[');
                    assert(e >= 1);
                    if k + e + 1 <= r.len() {
                        assert(s.subrange(a + 1, a + e) =~= r.subrange(k + 1, k + e));
                        assert(s.subrange(a + e, s.len() as int) =~= r.subrange(k + e, r.len() as int));
                        assert(s.subrange(a + e + 1, s.len() as int) =~= r.subrange(
                            k + e + 1,
                            r.len() as int,
                        ));
                        let after = r.subrange(k + e, r.len() as int);
                        lemma_find_from_bound(after, seq!['(', '#'], 0);
                        match find(after, seq!['(', '#']) {
                            Some(b0) => {
                                let b = b0 as int;
                                let g = r.subrange(k + e + b, r.len() as int);
                                lemma_find_from_bound(g, seq![')'], 0);
                                assert(s.subrange(a + e + b, s.len() as int) =~= r.subrange(
                                    k + e + b,
                                    r.len() as int,
                                ));
                                match find(g, seq![')']) {
                                    Some(c0) => {
                                        assert(g.subrange(0, 2) =~= seq!['(', '#']);
                                        if c0 < 2 {
                                            assert(g.subrange(c0 as int, c0 as int + 1)[0] == g[c0 as int]);
                                        }
                                        assert(s.subrange(a + e + b + 2, a + e + b + c0)
                                            =~= r.subrange(k + e + b + 2, k + e + b + c0));
                                    },
                                    None => {},
                                }
                            },
                            None => {},
                        }
                    }
                },
            }
        },
    }
}

/// A complete markdown link gives one dependency, the task its anchor
/// designates, ahead of the dependencies of the text that follows it.
pub proof fn lemma_link_yields_dependency(text: Seq<char>, anchor: Seq<char>, rest: Seq<char>)
    requires
        lacks(text, '['),
        lacks(text, ']'),
        lacks(anchor, '['),
        lacks(anchor, ')'),
    ensures
        link_deps(md_link(text, anchor) + rest) == seq![anchor_id(anchor)] + link_deps(rest),
{
    let s = md_link(text, anchor) + rest;
    let l = text.len() as int;
    let x = anchor.len() as int;
    assert(s[0] == '[');
    lemma_find_char(s, '[', 0);
    assert(s.subrange(0, s.len() as int) =~= s);
    assert forall|j: int| 1 <= j < 1 + l implies s[j] == text[j - 1] by {}
    assert(s[1 + l] == ']');
    assert forall|j: int| 0 <= j < 1 + l implies s[j] != ']' by {
        if j >= 1 {
            assert(s[j] == text[j - 1]);
        }
    }
    lemma_find_char(s, ']', 1 + l);
    let e = 1 + l;
    assert(s.subrange(1, e) =~= text);
    let after = s.subrange(e, s.len() as int);
    assert(after[0] == ']');
    assert(after.subrange(1, 3) =~= seq!['(', '#']);
    assert(!occurs_at(after, seq!['(', '#'], 0)) by {
        assert(after.subrange(0, 2)[0] == ']');
    }
    lemma_find_from_at(after, seq!['(', '#'], 0, 1);
    let g = s.subrange(e + 1, s.len() as int);
    assert(g[0] == '(' && g[1] == '#');
    assert forall|j: int| 2 <= j < 2 + x implies g[j] == anchor[j - 2] by {}
    assert(g[2 + x] == ')');
    assert forall|j: int| 0 <= j < 2 + x implies g[j] != ')' by {
        if j >= 2 {
            assert(g[j] == anchor[j - 2]);
        }
    }
    lemma_find_char(g, ')', 2 + x);
    assert(s.subrange(e + 1 + 2, e + 1 + 2 + x) =~= anchor);
    let p = seq!['(', '#'] + anchor + seq![')'];
    assert(g =~= p + rest);
    assert(lacks(p, '[')) by {
        assert forall|j: int| 0 <= j < p.len() implies p[j] != '[' by {
            if 2 <= j < 2 + x {
                assert(p[j] == anchor[j - 2]);
            }
        }
    }
    lemma_link_deps_skip(p, rest);
}

/// Links add up: the dependencies of a complete link followed by any text are
/// those of the link followed by those of the text; so a value with `n`
/// complete links yields `n` dependencies, in order.
pub proof fn lemma_link_deps_concat(text: Seq<char>, anchor: Seq<char>, rest: Seq<char>)
    requires
        lacks(text, '['),
        lacks(text, ']'),
        lacks(anchor, '['),
        lacks(anchor, ')'),
    ensures
        link_deps(md_link(text, anchor) + rest) == link_deps(md_link(text, anchor)) + link_deps(rest),
        link_deps(md_link(text, anchor)) == seq![anchor_id(anchor)],
{
    lemma_link_yields_dependency(text, anchor, rest);
    lemma_link_yields_dependency(text, anchor, Seq::<char>::empty());
    assert(md_link(text, anchor) + Seq::<char>::empty() =~= md_link(text, anchor));
    lemma_find_char_some(Seq::<char>::empty(), '[');
    assert(link_deps(Seq::<char>::empty()) =~= Seq::<Seq<char>>::empty());
}

/// A task identifier is made of alphanumeric characters and underscores
/// only, whatever the heading or anchor it comes from.
pub proof fn lemma_task_id_chars(name: Seq<char>)
    ensures
        forall|i: int|
            0 <= i < task_id(name).len() ==> alphanumeric(#[trigger] task_id(name)[i])
                || task_id(name)[i] == '_',
        forall|i: int|
            0 <= i < anchor_id(name).len() ==> alphanumeric(#[trigger] anchor_id(name)[i])
                || anchor_id(name)[i] == '_',
{
    lemma_id_chars(underscored(lowercase(name)));
    lemma_id_chars(underscored(lowercase(dashes_underscored(name))));
}

proof fn lemma_id_chars(s: Seq<char>)
    ensures
        forall|i: int| 0 <= i < id_chars(s).len() ==> alphanumeric(#[trigger] id_chars(s)[i])
            || id_chars(s)[i] == '_',
    decreases s.len(),
{
    if s.len() > 0 {
        lemma_id_chars(s.drop_last());
        let r = id_chars(s.drop_last());
        assert forall|i: int| 0 <= i < id_chars(s).len() implies alphanumeric(#[trigger] id_chars(s)[i])
            || id_chars(s)[i] == '_' by {
            if i < r.len() {
                assert(id_chars(s)[i] == r[i]);
            }
        }
    }
}

} // verus!
