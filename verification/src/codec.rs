//! The persistent text format of the task list, and of the downloaded-set
//! sidecar file of a segmented-playlist task.
//!
//! A task list is written as a pretty-printed JSON array of objects of the
//! shape `{"src": ..., "dest": ..., "cache": ..., "kind": "M3u8"|"Zfs",
//! "status": "Queued"|"Running"|"Stopped"|"Completed"|"Failed"}`, the fields
//! in exactly this order; a downloaded set is written as a JSON array of
//! strings. String values escape the quote, the backslash, and the newline,
//! carriage-return and tab characters; the reader also accepts an escaped
//! slash, and arbitrary blanks between tokens. Decoding what was encoded
//! gives back exactly what was written — see `lemma_task_infos_round_trip`
//! and `lemma_string_list_round_trip`.

use vstd::prelude::*;
use vstd::string::{StrSliceExecFns, StringExecFns};

use crate::bz_task::info::{BzTaskInfo, BzTaskInfoV, BzTaskStatus, BzTaskType};

verus! {

/// The values of a list of descriptors.
pub open spec fn infos_view(infos: Seq<BzTaskInfo>) -> Seq<BzTaskInfoV> {
    infos.map_values(|x: BzTaskInfo| x@)
}

/// The values of a list of strings.
pub open spec fn strings_view(items: Seq<String>) -> Seq<Seq<char>> {
    items.map_values(|x: String| x@)
}

// ---------------------------------------------------------------------------
// escaping
// ---------------------------------------------------------------------------

/// How one character of a string value is written inside quotes.
pub open spec fn escape_char(c: char) -> Seq<char> {
    if c == '"' {
        seq!['\\', '"']
    } else if c == '\\' {
        seq!['\\', '\\']
    } else if c == '\n' {
        seq!['\\', 'n']
    } else if c == '\r' {
        seq!['\\', 'r']
    } else if c == '\t' {
        seq!['\\', 't']
    } else {
        seq![c]
    }
}

/// How a whole string value is written inside quotes.
pub open spec fn escape_str(s: Seq<char>) -> Seq<char>
    decreases s.len(),
{
    if s.len() == 0 {
        Seq::empty()
    } else {
        escape_char(s[0]) + escape_str(s.skip(1))
    }
}

/// A quoted string value.
pub open spec fn quoted(s: Seq<char>) -> Seq<char> {
    seq!['"'] + escape_str(s) + seq!['"']
}

/// What an escape code stands for; the codes this format does not use give
/// nothing.
pub open spec fn unescape_char(c: char) -> Option<char> {
    if c == '"' {
        Some('"')
    } else if c == '\\' {
        Some('\\')
    } else if c == '/' {
        Some('/')
    } else if c == 'n' {
        Some('\n')
    } else if c == 'r' {
        Some('\r')
    } else if c == 't' {
        Some('\t')
    } else {
        None
    }
}

/// Escaping one character and reading the escape back gives the character.
proof fn lemma_escape_char_inverts(c: char)
    ensures
        escape_char(c).len() == 1 || escape_char(c).len() == 2,
        escape_char(c).len() == 2 ==> escape_char(c)[0] == '\\' && unescape_char(
            escape_char(c)[1],
        ) == Some(c),
        escape_char(c).len() == 1 ==> escape_char(c)[0] == c && c != '"' && c != '\\',
{
}

/// Escaping distributes over appending one character at the end.
proof fn lemma_escape_push(s: Seq<char>, c: char)
    ensures
        escape_str(s.push(c)) == escape_str(s) + escape_char(c),
    decreases s.len(),
{
    if s.len() == 0 {
        assert(s.push(c)[0] == c);
        assert(s.push(c).skip(1) =~= Seq::<char>::empty());
        assert(escape_str(Seq::<char>::empty()) =~= Seq::<char>::empty());
        assert(escape_char(c) + Seq::<char>::empty() =~= escape_char(c));
        assert(escape_str(s.push(c)) =~= escape_char(c));
        assert(escape_str(s) + escape_char(c) =~= escape_char(c));
    } else {
        assert(s.push(c)[0] == s[0]);
        assert(s.push(c).skip(1) =~= s.skip(1).push(c));
        lemma_escape_push(s.skip(1), c);
        assert(escape_str(s.push(c)) == escape_char(s[0]) + (escape_str(s.skip(1)) + escape_char(
            c,
        )));
        assert(escape_char(s[0]) + (escape_str(s.skip(1)) + escape_char(c)) =~= (escape_char(s[0])
            + escape_str(s.skip(1))) + escape_char(c));
    }
}

// ---------------------------------------------------------------------------
// fixed texts
// ---------------------------------------------------------------------------

pub open spec fn key_src() -> Seq<char> {
    seq!['s', 'r', 'c']
}

pub open spec fn key_dest() -> Seq<char> {
    seq!['d', 'e', 's', 't']
}

pub open spec fn key_cache() -> Seq<char> {
    seq!['c', 'a', 'c', 'h', 'e']
}

pub open spec fn key_kind() -> Seq<char> {
    seq!['k', 'i', 'n', 'd']
}

pub open spec fn key_status() -> Seq<char> {
    seq!['s', 't', 'a', 't', 'u', 's']
}

/// The text a task kind is written as.
pub open spec fn kind_text(kind: BzTaskType) -> Seq<char> {
    match kind {
        BzTaskType::M3u8 => seq!['M', '3', 'u', '8'],
        BzTaskType::Zfs => seq!['Z', 'f', 's'],
    }
}

/// The kind a text reads back as.
pub open spec fn kind_of_text(t: Seq<char>) -> Option<BzTaskType> {
    if t == kind_text(BzTaskType::M3u8) {
        Some(BzTaskType::M3u8)
    } else if t == kind_text(BzTaskType::Zfs) {
        Some(BzTaskType::Zfs)
    } else {
        None
    }
}

/// The text a task status is written as.
pub open spec fn status_text(status: BzTaskStatus) -> Seq<char> {
    match status {
        BzTaskStatus::Queued => seq!['Q', 'u', 'e', 'u', 'e', 'd'],
        BzTaskStatus::Running => seq!['R', 'u', 'n', 'n', 'i', 'n', 'g'],
        BzTaskStatus::Stopped => seq!['S', 't', 'o', 'p', 'p', 'e', 'd'],
        BzTaskStatus::Completed => seq!['C', 'o', 'm', 'p', 'l', 'e', 't', 'e', 'd'],
        BzTaskStatus::Failed => seq!['F', 'a', 'i', 'l', 'e', 'd'],
    }
}

/// The status a text reads back as.
pub open spec fn status_of_text(t: Seq<char>) -> Option<BzTaskStatus> {
    if t == status_text(BzTaskStatus::Queued) {
        Some(BzTaskStatus::Queued)
    } else if t == status_text(BzTaskStatus::Running) {
        Some(BzTaskStatus::Running)
    } else if t == status_text(BzTaskStatus::Stopped) {
        Some(BzTaskStatus::Stopped)
    } else if t == status_text(BzTaskStatus::Completed) {
        Some(BzTaskStatus::Completed)
    } else if t == status_text(BzTaskStatus::Failed) {
        Some(BzTaskStatus::Failed)
    } else {
        None
    }
}

// ---------------------------------------------------------------------------
// the emitted text
// ---------------------------------------------------------------------------

/// One field line of an object: newline, four blanks, the quoted name, a
/// colon and a blank, then the value text.
pub open spec fn field_text(name: Seq<char>, value_text: Seq<char>) -> Seq<char> {
    seq!['\n', ' ', ' ', ' ', ' ', '"'] + name + seq!['"', ':', ' '] + value_text
}

/// One descriptor as an object block.
pub open spec fn encode_info_text(v: BzTaskInfoV) -> Seq<char> {
    seq!['{'] + field_text(key_src(), quoted(v.src)) + seq![','] + field_text(
        key_dest(),
        quoted(v.dest),
    ) + seq![','] + field_text(key_cache(), quoted(v.cache)) + seq![','] + field_text(
        key_kind(),
        quoted(kind_text(v.kind)),
    ) + seq![','] + field_text(key_status(), quoted(status_text(v.status))) + seq![
        '\n',
        ' ',
        ' ',
        '}',
    ]
}

/// One array element: newline, two blanks, the object.
pub open spec fn item_text(v: BzTaskInfoV) -> Seq<char> {
    seq!['\n', ' ', ' '] + encode_info_text(v)
}

/// The elements of a non-empty array, separated by commas.
pub open spec fn encode_items(vs: Seq<BzTaskInfoV>) -> Seq<char>
    decreases vs.len(),
{
    if vs.len() == 0 {
        Seq::empty()
    } else if vs.len() == 1 {
        item_text(vs[0])
    } else {
        item_text(vs[0]) + seq![','] + encode_items(vs.skip(1))
    }
}

/// The whole task list text.
pub open spec fn encode_infos(vs: Seq<BzTaskInfoV>) -> Seq<char> {
    if vs.len() == 0 {
        seq!['[', ']']
    } else {
        seq!['['] + encode_items(vs) + seq!['\n', ']']
    }
}

/// The elements of a non-empty string array, separated by commas.
pub open spec fn encode_string_items(vs: Seq<Seq<char>>) -> Seq<char>
    decreases vs.len(),
{
    if vs.len() == 0 {
        Seq::empty()
    } else if vs.len() == 1 {
        quoted(vs[0])
    } else {
        quoted(vs[0]) + seq![','] + encode_string_items(vs.skip(1))
    }
}

/// The whole downloaded-set text: a compact array of strings.
pub open spec fn encode_strings(vs: Seq<Seq<char>>) -> Seq<char> {
    if vs.len() == 0 {
        seq!['[', ']']
    } else {
        seq!['['] + encode_string_items(vs) + seq![']']
    }
}

// ---------------------------------------------------------------------------
// the reader
// ---------------------------------------------------------------------------

/// A blank between tokens.
pub open spec fn is_ws(c: char) -> bool {
    c == ' ' || c == '\n' || c == '\r' || c == '\t'
}

/// The first position at or after `i` that does not hold a blank.
pub open spec fn skip_ws(s: Seq<char>, i: int) -> int
    decreases s.len() - i,
{
    if 0 <= i < s.len() && is_ws(s[i]) {
        skip_ws(s, i + 1)
    } else {
        i
    }
}

/// Whether the text holds exactly `lit` starting at `i`.
pub open spec fn match_lit(s: Seq<char>, i: int, lit: Seq<char>) -> bool {
    0 <= i && i + lit.len() <= s.len() && s.subrange(i, i + lit.len()) == lit
}

/// Reads a string value after its opening quote: the decoded value and the
/// position after the closing quote.
pub open spec fn parse_string_body(s: Seq<char>, i: int) -> Option<(Seq<char>, int)>
    decreases s.len() - i,
{
    if !(0 <= i < s.len()) {
        None
    } else if s[i] == '"' {
        Some((Seq::empty(), i + 1))
    } else if s[i] == '\\' {
        if i + 1 < s.len() {
            match unescape_char(s[i + 1]) {
                Some(c) => match parse_string_body(s, i + 2) {
                    Some((rest, j)) => Some((seq![c] + rest, j)),
                    None => None,
                },
                None => None,
            }
        } else {
            None
        }
    } else {
        match parse_string_body(s, i + 1) {
            Some((rest, j)) => Some((seq![s[i]] + rest, j)),
            None => None,
        }
    }
}

/// Reads a quoted string value at `i`.
pub open spec fn parse_string(s: Seq<char>, i: int) -> Option<(Seq<char>, int)> {
    if 0 <= i < s.len() && s[i] == '"' {
        parse_string_body(s, i + 1)
    } else {
        None
    }
}

/// Reads one `"name": "value"` field (blanks allowed around the tokens):
/// the raw value and the position after it.
pub open spec fn parse_field(s: Seq<char>, i: int, name: Seq<char>) -> Option<(Seq<char>, int)> {
    let i1 = skip_ws(s, i);
    if 0 <= i1 && i1 + name.len() + 2 <= s.len() && s[i1] == '"' && match_lit(s, i1 + 1, name) && s[
        i1 + name.len() + 1
    ] == '"' {
        let i2 = skip_ws(s, i1 + name.len() + 2);
        if 0 <= i2 < s.len() && s[i2] == ':' {
            parse_string(s, skip_ws(s, i2 + 1))
        } else {
            None
        }
    } else {
        None
    }
}

/// Expects a comma (blanks allowed before it) and gives the position after.
pub open spec fn parse_comma(s: Seq<char>, i: int) -> Option<int> {
    let i1 = skip_ws(s, i);
    if 0 <= i1 < s.len() && s[i1] == ',' {
        Some(i1 + 1)
    } else {
        None
    }
}

/// Reads one descriptor object: its five fields, in order.
pub open spec fn parse_info(s: Seq<char>, i: int) -> Option<(BzTaskInfoV, int)> {
    let i0 = skip_ws(s, i);
    if !(0 <= i0 < s.len() && s[i0] == '{') {
        None
    } else {
        match parse_field(s, i0 + 1, key_src()) {
            Some((src, p1)) => match parse_comma(s, p1) {
                Some(q1) => match parse_field(s, q1, key_dest()) {
                    Some((dest, p2)) => match parse_comma(s, p2) {
                        Some(q2) => match parse_field(s, q2, key_cache()) {
                            Some((cache, p3)) => match parse_comma(s, p3) {
                                Some(q3) => match parse_field(s, q3, key_kind()) {
                                    Some((kind_raw, p4)) => match parse_comma(s, p4) {
                                        Some(q4) => match parse_field(s, q4, key_status()) {
                                            Some((status_raw, p5)) => {
                                                let p6 = skip_ws(s, p5);
                                                if 0 <= p6 < s.len() && s[p6] == '}' {
                                                    match (kind_of_text(kind_raw), status_of_text(
                                                        status_raw,
                                                    )) {
                                                        (Some(kind), Some(status)) => Some(
                                                            (
                                                                BzTaskInfoV {
                                                                    src,
                                                                    dest,
                                                                    cache,
                                                                    kind,
                                                                    status,
                                                                },
                                                                p6 + 1,
                                                            ),
                                                        ),
                                                        _ => None,
                                                    }
                                                } else {
                                                    None
                                                }
                                            },
                                            None => None,
                                        },
                                        None => None,
                                    },
                                    None => None,
                                },
                                None => None,
                            },
                            None => None,
                        },
                        None => None,
                    },
                    None => None,
                },
                None => None,
            },
            None => None,
        }
    }
}

/// Reads the elements of a non-empty array of descriptors, up to and past
/// the closing bracket.
pub open spec fn parse_items(s: Seq<char>, i: int) -> Option<(Seq<BzTaskInfoV>, int)>
    decreases s.len() - i,
{
    match parse_info(s, i) {
        Some((v, j)) => {
            let j1 = skip_ws(s, j);
            if j1 + 1 <= i {
                // a parse never moves backwards; this arm only bounds the
                // recursion
                None
            } else if 0 <= j1 < s.len() && s[j1] == ',' {
                match parse_items(s, j1 + 1) {
                    Some((rest, k)) => Some((seq![v] + rest, k)),
                    None => None,
                }
            } else if 0 <= j1 < s.len() && s[j1] == ']' {
                Some((seq![v], j1 + 1))
            } else {
                None
            }
        },
        None => None,
    }
}

/// Reads a whole array of descriptors at `i`.
pub open spec fn parse_infos(s: Seq<char>, i: int) -> Option<(Seq<BzTaskInfoV>, int)> {
    let i1 = skip_ws(s, i);
    if 0 <= i1 < s.len() && s[i1] == '[' {
        let i2 = skip_ws(s, i1 + 1);
        if 0 <= i2 < s.len() && s[i2] == ']' {
            Some((Seq::empty(), i2 + 1))
        } else {
            parse_items(s, i1 + 1)
        }
    } else {
        None
    }
}

/// What a task list text means: the descriptors, provided the whole text is
/// one array with nothing but blanks after it.
pub open spec fn decode_infos(s: Seq<char>) -> Option<Seq<BzTaskInfoV>> {
    match parse_infos(s, 0) {
        Some((vs, j)) => if skip_ws(s, j) == s.len() {
            Some(vs)
        } else {
            None
        },
        None => None,
    }
}

/// Reads the elements of a non-empty array of strings, up to and past the
/// closing bracket.
pub open spec fn parse_string_items(s: Seq<char>, i: int) -> Option<(Seq<Seq<char>>, int)>
    decreases s.len() - i,
{
    match parse_string(s, skip_ws(s, i)) {
        Some((v, j)) => {
            let j1 = skip_ws(s, j);
            if j1 + 1 <= i {
                // a parse never moves backwards; this arm only bounds the
                // recursion
                None
            } else if 0 <= j1 < s.len() && s[j1] == ',' {
                match parse_string_items(s, j1 + 1) {
                    Some((rest, k)) => Some((seq![v] + rest, k)),
                    None => None,
                }
            } else if 0 <= j1 < s.len() && s[j1] == ']' {
                Some((seq![v], j1 + 1))
            } else {
                None
            }
        },
        None => None,
    }
}

/// What a downloaded-set text means: the strings, provided the whole text is
/// one array with nothing but blanks after it.
pub open spec fn decode_strings(s: Seq<char>) -> Option<Seq<Seq<char>>> {
    let i1 = skip_ws(s, 0);
    if 0 <= i1 < s.len() && s[i1] == '[' {
        let i2 = skip_ws(s, i1 + 1);
        let parsed = if 0 <= i2 < s.len() && s[i2] == ']' {
            Some((Seq::<Seq<char>>::empty(), i2 + 1))
        } else {
            parse_string_items(s, i1 + 1)
        };
        match parsed {
            Some((vs, j)) => if skip_ws(s, j) == s.len() {
                Some(vs)
            } else {
                None
            },
            None => None,
        }
    } else {
        None
    }
}

// ---------------------------------------------------------------------------
// reading back what was written
// ---------------------------------------------------------------------------

/// `skip_ws` never moves backwards nor past the end.
proof fn lemma_skip_ws_bounds(s: Seq<char>, i: int)
    requires
        0 <= i <= s.len(),
    ensures
        i <= skip_ws(s, i) <= s.len(),
    decreases s.len() - i,
{
    if i < s.len() && is_ws(s[i]) {
        lemma_skip_ws_bounds(s, i + 1);
    }
}

/// Over a run of blanks that ends at `j`, `skip_ws` lands exactly on `j`.
proof fn lemma_skip_ws_to(s: Seq<char>, i: int, j: int)
    requires
        0 <= i <= j <= s.len(),
        forall|k: int| i <= k < j ==> is_ws(#[trigger] s[k]),
        j == s.len() || !is_ws(s[j]),
    ensures
        skip_ws(s, i) == j,
    decreases j - i,
{
    if i < j {
        lemma_skip_ws_to(s, i + 1, j);
    }
}

/// Splitting a known suffix: when the text from `i` on reads `a + b`, then
/// `a` sits at `i` character by character and `b` is the text from
/// `i + a.len()` on.
proof fn lemma_suffix_split(s: Seq<char>, i: int, a: Seq<char>, b: Seq<char>)
    requires
        0 <= i <= s.len(),
        s.subrange(i, s.len() as int) == a + b,
    ensures
        i + a.len() + b.len() == s.len(),
        forall|k: int| 0 <= k < a.len() ==> s[i + k] == a[k],
        s.subrange(i + a.len(), s.len() as int) == b,
{
    let suf = s.subrange(i, s.len() as int);
    assert(suf.len() == a.len() + b.len());
    assert forall|k: int| 0 <= k < a.len() implies s[i + k] == a[k] by {
        assert(suf[k] == s[i + k]);
        assert(suf[k] == (a + b)[k]);
    }
    assert(s.subrange(i + a.len(), s.len() as int) =~= b) by {
        assert forall|k: int| 0 <= k < b.len() implies s.subrange(
            i + a.len(),
            s.len() as int,
        )[k] == b[k] by {
            assert(s.subrange(i + a.len(), s.len() as int)[k] == s[i + a.len() + k]);
            assert(suf[a.len() + k] == (a + b)[a.len() + k]);
        }
    }
}

/// Reading an escaped string value back gives exactly the value that was
/// escaped, and stops right after the closing quote.
proof fn lemma_parse_escaped(s: Seq<char>, i: int, v: Seq<char>, rest: Seq<char>)
    requires
        0 <= i <= s.len(),
        s.subrange(i, s.len() as int) == escape_str(v) + seq!['"'] + rest,
    ensures
        parse_string_body(s, i) == Some((v, i + escape_str(v).len() + 1)),
    decreases v.len(),
{
    if v.len() == 0 {
        assert(escape_str(v) =~= Seq::<char>::empty());
        assert(escape_str(v) + seq!['"'] + rest =~= seq!['"'] + rest);
        lemma_suffix_split(s, i, seq!['"'], rest);
        assert(s[i + 0] == seq!['"'][0]);
        assert(s[i] == '"');
        assert(parse_string_body(s, i) == Some((Seq::<char>::empty(), i + 1)));
        assert(v =~= Seq::<char>::empty());
    } else {
        let c = v[0];
        let v1 = v.skip(1);
        assert(v =~= seq![c] + v1);
        assert(escape_str(v) == escape_char(c) + escape_str(v1));
        lemma_escape_char_inverts(c);
        let ec = escape_char(c);
        assert((escape_char(c) + escape_str(v1)) + seq!['"'] + rest =~= ec + (escape_str(v1)
            + seq!['"'] + rest));
        lemma_suffix_split(s, i, ec, escape_str(v1) + seq!['"'] + rest);
        if ec.len() == 1 {
            assert(s[i] == c);
            assert(c != '"' && c != '\\');
            lemma_parse_escaped(s, i + 1, v1, rest);
            assert(parse_string_body(s, i) == Some((seq![c] + v1, i + 1 + escape_str(v1).len()
                + 1)));
            assert(seq![c] + v1 =~= v);
        } else {
            assert(s[i] == '\\');
            assert(s[i + 1] == ec[1]);
            assert(unescape_char(ec[1]) == Some(c));
            lemma_parse_escaped(s, i + 2, v1, rest);
            assert(parse_string_body(s, i) == Some((seq![c] + v1, i + 2 + escape_str(v1).len()
                + 1)));
            assert(seq![c] + v1 =~= v);
        }
    }
}

/// Reading a quoted string value back gives exactly the value that was
/// quoted, and stops right after it.
proof fn lemma_parse_quoted(s: Seq<char>, i: int, v: Seq<char>, rest: Seq<char>)
    requires
        0 <= i <= s.len(),
        s.subrange(i, s.len() as int) == quoted(v) + rest,
    ensures
        parse_string(s, i) == Some((v, i + quoted(v).len())),
{
    assert((seq!['"'] + escape_str(v) + seq!['"']) + rest =~= seq!['"'] + (escape_str(v)
        + seq!['"'] + rest));
    lemma_suffix_split(s, i, seq!['"'], escape_str(v) + seq!['"'] + rest);
    assert(s[i + 0] == seq!['"'][0]);
    assert(s[i] == '"');
    lemma_parse_escaped(s, i + 1, v, rest);
}

/// Reading a field line back gives exactly the value that was written.
proof fn lemma_parse_field(s: Seq<char>, i: int, name: Seq<char>, v: Seq<char>, rest: Seq<char>)
    requires
        0 <= i <= s.len(),
        s.subrange(i, s.len() as int) == field_text(name, quoted(v)) + rest,
    ensures
        parse_field(s, i, name) == Some((v, i + field_text(name, quoted(v)).len())),
{
    let ws5 = seq!['\n', ' ', ' ', ' ', ' '];
    let qn = seq!['"'] + name + seq!['"'];
    let colon_sp = seq![':', ' '];
    assert(field_text(name, quoted(v)) + rest =~= ws5 + (qn + (colon_sp + (quoted(v) + rest))));
    lemma_suffix_split(s, i, ws5, qn + (colon_sp + (quoted(v) + rest)));
    let i1 = i + 5;
    lemma_suffix_split(s, i1, qn, colon_sp + (quoted(v) + rest));
    let p = i1 + qn.len();
    lemma_suffix_split(s, p, colon_sp, quoted(v) + rest);
    assert forall|k: int| i <= k < i1 implies is_ws(#[trigger] s[k]) by {
        assert(s[i + (k - i)] == ws5[k - i]);
    }
    assert(s[i1 + 0] == qn[0]);
    assert(s[i1] == '"');
    lemma_skip_ws_to(s, i, i1);
    assert(s.subrange(i1 + 1, i1 + 1 + name.len()) =~= name) by {
        assert forall|k: int| 0 <= k < name.len() implies s.subrange(
            i1 + 1,
            i1 + 1 + name.len(),
        )[k] == name[k] by {
            assert(s[i1 + (1 + k)] == qn[1 + k]);
        }
    }
    assert(match_lit(s, i1 + 1, name));
    assert(s[i1 + (name.len() + 1)] == qn[name.len() as int + 1]);
    assert(s[i1 + name.len() + 1] == '"');
    assert(s[p + 0] == colon_sp[0]);
    assert(s[p] == ':');
    lemma_skip_ws_to(s, p, p);
    assert(s[p + 1] == colon_sp[1]);
    assert(s[p + 1] == ' ');
    let p2 = p + 2;
    assert(s.subrange(p2, s.len() as int) == quoted(v) + rest);
    assert(s[p2] == '"') by {
        assert(s.subrange(p2, s.len() as int)[0] == (quoted(v) + rest)[0]);
        assert((seq!['"'] + escape_str(v) + seq!['"'])[0] == '"');
    }
    assert forall|k: int| p + 1 <= k < p2 implies is_ws(#[trigger] s[k]) by {
        assert(s[p + 1] == ' ');
    }
    lemma_skip_ws_to(s, p + 1, p2);
    lemma_parse_quoted(s, p2, v, rest);
    assert(parse_field(s, i, name) == Some((v, p2 + quoted(v).len())));
}

/// Reading a separator back.
proof fn lemma_parse_comma(s: Seq<char>, i: int, rest: Seq<char>)
    requires
        0 <= i <= s.len(),
        s.subrange(i, s.len() as int) == seq![','] + rest,
    ensures
        parse_comma(s, i) == Some(i + 1),
        s.subrange(i + 1, s.len() as int) == rest,
{
    lemma_suffix_split(s, i, seq![','], rest);
    assert(s[i + 0] == seq![','][0]);
    assert(s[i] == ',');
    lemma_skip_ws_to(s, i, i);
}

/// Reading an object back gives exactly the descriptor that was written,
/// regardless of the blanks in front of it.
#[verifier::rlimit(100)]
proof fn lemma_parse_info(s: Seq<char>, i: int, m: int, v: BzTaskInfoV, rest: Seq<char>)
    requires
        0 <= i <= m <= s.len(),
        forall|k: int| i <= k < m ==> is_ws(#[trigger] s[k]),
        s.subrange(m, s.len() as int) == encode_info_text(v) + rest,
    ensures
        parse_info(s, i) == Some((v, m + encode_info_text(v).len())),
{
    let f1 = field_text(key_src(), quoted(v.src));
    let f2 = field_text(key_dest(), quoted(v.dest));
    let f3 = field_text(key_cache(), quoted(v.cache));
    let f4 = field_text(key_kind(), quoted(kind_text(v.kind)));
    let f5 = field_text(key_status(), quoted(status_text(v.status)));
    let tail4 = seq!['\n', ' ', ' ', '}'];
    let c1 = seq![','];
    assert(encode_info_text(v) + rest =~= seq!['{'] + (f1 + (c1 + (f2 + (c1 + (f3 + (c1 + (f4 + (c1
        + (f5 + (tail4 + rest)))))))))));
    lemma_suffix_split(s, m, seq!['{'], f1 + (c1 + (f2 + (c1 + (f3 + (c1 + (f4 + (c1 + (f5 + (tail4
        + rest))))))))));
    assert(s[m + 0] == seq!['{'][0]);
    assert(s[m] == '{');
    lemma_skip_ws_to(s, i, m);
    let p0 = m + 1;
    lemma_parse_field(s, p0, key_src(), v.src, c1 + (f2 + (c1 + (f3 + (c1 + (f4 + (c1 + (f5 + (tail4
        + rest)))))))));
    lemma_suffix_split(s, p0, f1, c1 + (f2 + (c1 + (f3 + (c1 + (f4 + (c1 + (f5 + (tail4
        + rest)))))))));
    let p1 = p0 + f1.len();
    lemma_parse_comma(s, p1, f2 + (c1 + (f3 + (c1 + (f4 + (c1 + (f5 + (tail4 + rest))))))));
    let q1 = p1 + 1;
    lemma_parse_field(s, q1, key_dest(), v.dest, c1 + (f3 + (c1 + (f4 + (c1 + (f5 + (tail4
        + rest)))))));
    lemma_suffix_split(s, q1, f2, c1 + (f3 + (c1 + (f4 + (c1 + (f5 + (tail4 + rest)))))));
    let p2 = q1 + f2.len();
    lemma_parse_comma(s, p2, f3 + (c1 + (f4 + (c1 + (f5 + (tail4 + rest))))));
    let q2 = p2 + 1;
    lemma_parse_field(s, q2, key_cache(), v.cache, c1 + (f4 + (c1 + (f5 + (tail4 + rest)))));
    lemma_suffix_split(s, q2, f3, c1 + (f4 + (c1 + (f5 + (tail4 + rest)))));
    let p3 = q2 + f3.len();
    lemma_parse_comma(s, p3, f4 + (c1 + (f5 + (tail4 + rest))));
    let q3 = p3 + 1;
    lemma_parse_field(s, q3, key_kind(), kind_text(v.kind), c1 + (f5 + (tail4 + rest)));
    lemma_suffix_split(s, q3, f4, c1 + (f5 + (tail4 + rest)));
    let p4 = q3 + f4.len();
    lemma_parse_comma(s, p4, f5 + (tail4 + rest));
    let q4 = p4 + 1;
    lemma_parse_field(s, q4, key_status(), status_text(v.status), tail4 + rest);
    lemma_suffix_split(s, q4, f5, tail4 + rest);
    let p5 = q4 + f5.len();
    lemma_suffix_split(s, p5, tail4, rest);
    assert(s[p5 + 0] == tail4[0]);
    assert(s[p5 + 1] == tail4[1]);
    assert(s[p5 + 2] == tail4[2]);
    assert(s[p5 + 3] == tail4[3]);
    assert forall|k: int| p5 <= k < p5 + 3 implies is_ws(#[trigger] s[k]) by {
        assert(s[p5 + (k - p5)] == tail4[k - p5]);
    }
    lemma_skip_ws_to(s, p5, p5 + 3);
    let p6 = p5 + 3;
    assert(s[p6] == '}');
    assert(kind_of_text(kind_text(v.kind)) == Some(v.kind));
    assert(status_of_text(status_text(v.status)) == Some(v.status));
    assert(parse_info(s, i) == Some(
        (
            BzTaskInfoV {
                src: v.src,
                dest: v.dest,
                cache: v.cache,
                kind: v.kind,
                status: v.status,
            },
            p6 + 1,
        ),
    ));
    assert(BzTaskInfoV {
        src: v.src,
        dest: v.dest,
        cache: v.cache,
        kind: v.kind,
        status: v.status,
    } == v);
}

/// Reading the elements of a written array back gives exactly the
/// descriptors that were written, in order.
#[verifier::rlimit(100)]
proof fn lemma_parse_items(s: Seq<char>, i: int, vs: Seq<BzTaskInfoV>, rest: Seq<char>)
    requires
        vs.len() >= 1,
        0 <= i <= s.len(),
        s.subrange(i, s.len() as int) == encode_items(vs) + seq!['\n', ']'] + rest,
    ensures
        parse_items(s, i) == Some((vs, i + encode_items(vs).len() + 2)),
    decreases vs.len(),
{
    let v0 = vs[0];
    let it = item_text(v0);
    let info_len = encode_info_text(v0).len();
    if vs.len() == 1 {
        assert(encode_items(vs) == it);
        assert(it + seq!['\n', ']'] + rest =~= seq!['\n', ' ', ' '] + (encode_info_text(v0) + (seq![
            '\n',
            ']',
        ] + rest)));
        lemma_suffix_split(s, i, seq!['\n', ' ', ' '], encode_info_text(v0) + (seq!['\n', ']']
            + rest));
        assert forall|k: int| i <= k < i + 3 implies is_ws(#[trigger] s[k]) by {
            assert(s[i + (k - i)] == seq!['\n', ' ', ' '][k - i]);
        }
        lemma_parse_info(s, i, i + 3, v0, seq!['\n', ']'] + rest);
        let j = i + 3 + info_len;
        lemma_suffix_split(s, i + 3, encode_info_text(v0), seq!['\n', ']'] + rest);
        lemma_suffix_split(s, j, seq!['\n', ']'], rest);
        assert(s[j + 0] == '\n');
        assert(s[j + 1] == ']');
        assert forall|k: int| j <= k < j + 1 implies is_ws(#[trigger] s[k]) by {
            assert(s[j + 0] == '\n');
        }
        lemma_skip_ws_to(s, j, j + 1);
        assert(parse_items(s, i) == Some((seq![v0], j + 2)));
        assert(seq![v0] =~= vs);
    } else {
        let tail = vs.skip(1);
        assert(encode_items(vs) == it + seq![','] + encode_items(tail));
        assert(encode_items(vs) + seq!['\n', ']'] + rest =~= seq!['\n', ' ', ' ']
            + (encode_info_text(v0) + (seq![','] + (encode_items(tail) + seq!['\n', ']']
            + rest))));
        lemma_suffix_split(s, i, seq!['\n', ' ', ' '], encode_info_text(v0) + (seq![',']
            + (encode_items(tail) + seq!['\n', ']'] + rest)));
        assert forall|k: int| i <= k < i + 3 implies is_ws(#[trigger] s[k]) by {
            assert(s[i + (k - i)] == seq!['\n', ' ', ' '][k - i]);
        }
        lemma_parse_info(s, i, i + 3, v0, seq![','] + (encode_items(tail) + seq!['\n', ']']
            + rest));
        let j = i + 3 + info_len;
        lemma_suffix_split(s, i + 3, encode_info_text(v0), seq![','] + (encode_items(tail) + seq![
            '\n',
            ']',
        ] + rest));
        lemma_suffix_split(s, j, seq![','], encode_items(tail) + seq!['\n', ']'] + rest);
        assert(s[j + 0] == seq![','][0]);
        assert(s[j] == ',');
        lemma_skip_ws_to(s, j, j);
        lemma_parse_items(s, j + 1, tail, rest);
        assert(parse_items(s, i) == Some((seq![v0] + tail, j + 1 + encode_items(tail).len() + 2)));
        assert(seq![v0] + tail =~= vs);
    }
}

/// Law: decoding an encoded task list gives back exactly that list.
#[verifier::rlimit(100)]
pub proof fn lemma_task_infos_round_trip(vs: Seq<BzTaskInfoV>)
    ensures
        decode_infos(encode_infos(vs)) == Some(vs),
{
    let s = encode_infos(vs);
    if vs.len() == 0 {
        assert(s == seq!['[', ']']);
        assert(s[0] == '[' && s[1] == ']');
        lemma_skip_ws_to(s, 0, 0);
        lemma_skip_ws_to(s, 1, 1);
        lemma_skip_ws_to(s, 2, 2);
        assert(parse_infos(s, 0) == Some((Seq::<BzTaskInfoV>::empty(), 2int)));
        assert(decode_infos(s) == Some(Seq::<BzTaskInfoV>::empty()));
        assert(Seq::<BzTaskInfoV>::empty() =~= vs);
    } else {
        assert(s == seq!['['] + encode_items(vs) + seq!['\n', ']']);
        assert(s.subrange(0, s.len() as int) =~= seq!['['] + (encode_items(vs) + seq!['\n', ']']
            + Seq::<char>::empty()));
        lemma_suffix_split(s, 0, seq!['['], encode_items(vs) + seq!['\n', ']']
            + Seq::<char>::empty());
        assert(s[0] == '[');
        lemma_skip_ws_to(s, 0, 0);
        // the first item starts with a newline, two blanks and an opening
        // brace, so the empty-array branch is not taken
        let items = encode_items(vs) + seq!['\n', ']'] + Seq::<char>::empty();
        assert(encode_items(vs) == item_text(vs[0]) || encode_items(vs) == item_text(vs[0]) + seq![
            ','
        ] + encode_items(vs.skip(1)));
        assert(s[1] == '\n' && s[2] == ' ' && s[3] == ' ' && s[4] == '{') by {
            assert(items[0] == '\n' && items[1] == ' ' && items[2] == ' ' && items[3] == '{');
            assert(s[1int + 0int] == items[0]);
            assert(s[1int + 1int] == items[1]);
            assert(s[1int + 2int] == items[2]);
            assert(s[1int + 3int] == items[3]);
        }
        assert forall|k: int| 1 <= k < 4 implies is_ws(#[trigger] s[k]) by {
            assert(s[1] == '\n' && s[2] == ' ' && s[3] == ' ');
        }
        lemma_skip_ws_to(s, 1, 4);
        lemma_parse_items(s, 1, vs, Seq::<char>::empty());
        assert(parse_infos(s, 0) == Some((vs, s.len() as int)));
        lemma_skip_ws_to(s, s.len() as int, s.len() as int);
        assert(decode_infos(s) == Some(vs));
    }
}

/// Reading the elements of a written string array back gives exactly the
/// strings that were written, in order.
#[verifier::rlimit(100)]
proof fn lemma_parse_string_items(s: Seq<char>, i: int, vs: Seq<Seq<char>>, rest: Seq<char>)
    requires
        vs.len() >= 1,
        0 <= i <= s.len(),
        s.subrange(i, s.len() as int) == encode_string_items(vs) + seq![']'] + rest,
    ensures
        parse_string_items(s, i) == Some((vs, i + encode_string_items(vs).len() + 1)),
    decreases vs.len(),
{
    let v0 = vs[0];
    if vs.len() == 1 {
        assert(encode_string_items(vs) == quoted(v0));
        assert(quoted(v0) + seq![']'] + rest =~= quoted(v0) + (seq![']'] + rest));
        lemma_suffix_split(s, i, quoted(v0), seq![']'] + rest);
        assert(s[i + 0] == quoted(v0)[0]);
        assert(quoted(v0)[0] == '"');
        lemma_skip_ws_to(s, i, i);
        lemma_parse_quoted(s, i, v0, seq![']'] + rest);
        let j = i + quoted(v0).len();
        lemma_suffix_split(s, j, seq![']'], rest);
        assert(s[j + 0] == seq![']'][0]);
        assert(s[j] == ']');
        lemma_skip_ws_to(s, j, j);
        assert(parse_string_items(s, i) == Some((seq![v0], j + 1)));
        assert(seq![v0] =~= vs);
    } else {
        let tail = vs.skip(1);
        assert(encode_string_items(vs) == quoted(v0) + seq![','] + encode_string_items(tail));
        assert(encode_string_items(vs) + seq![']'] + rest =~= quoted(v0) + (seq![',']
            + (encode_string_items(tail) + seq![']'] + rest)));
        lemma_suffix_split(s, i, quoted(v0), seq![','] + (encode_string_items(tail) + seq![']']
            + rest));
        assert(s[i + 0] == quoted(v0)[0]);
        assert(quoted(v0)[0] == '"');
        lemma_skip_ws_to(s, i, i);
        lemma_parse_quoted(s, i, v0, seq![','] + (encode_string_items(tail) + seq![']'] + rest));
        let j = i + quoted(v0).len();
        lemma_suffix_split(s, j, seq![','], encode_string_items(tail) + seq![']'] + rest);
        assert(s[j + 0] == seq![','][0]);
        assert(s[j] == ',');
        lemma_skip_ws_to(s, j, j);
        lemma_parse_string_items(s, j + 1, tail, rest);
        assert(parse_string_items(s, i) == Some(
            (seq![v0] + tail, j + 1 + encode_string_items(tail).len() + 1),
        ));
        assert(seq![v0] + tail =~= vs);
    }
}

/// Law: decoding an encoded downloaded set gives back exactly that set.
#[verifier::rlimit(100)]
pub proof fn lemma_string_list_round_trip(vs: Seq<Seq<char>>)
    ensures
        decode_strings(encode_strings(vs)) == Some(vs),
{
    let s = encode_strings(vs);
    if vs.len() == 0 {
        assert(s == seq!['[', ']']);
        assert(s[0] == '[' && s[1] == ']');
        lemma_skip_ws_to(s, 0, 0);
        lemma_skip_ws_to(s, 1, 1);
        lemma_skip_ws_to(s, 2, 2);
        assert(decode_strings(s) == Some(Seq::<Seq<char>>::empty()));
        assert(Seq::<Seq<char>>::empty() =~= vs);
    } else {
        assert(s == seq!['['] + encode_string_items(vs) + seq![']']);
        assert(s.subrange(0, s.len() as int) =~= seq!['['] + (encode_string_items(vs) + seq![']']
            + Seq::<char>::empty()));
        lemma_suffix_split(s, 0, seq!['['], encode_string_items(vs) + seq![']']
            + Seq::<char>::empty());
        assert(s[0int + 0int] == seq!['['][0]);
        assert(s[0] == '[');
        lemma_skip_ws_to(s, 0, 0);
        let items = encode_string_items(vs) + seq![']'] + Seq::<char>::empty();
        assert(encode_string_items(vs) == quoted(vs[0]) || encode_string_items(vs) == quoted(vs[0])
            + seq![','] + encode_string_items(vs.skip(1)));
        assert(s[1] == '"') by {
            assert(quoted(vs[0])[0] == '"');
            assert(items[0] == '"');
            assert(s[1int + 0int] == items[0]);
        }
        lemma_skip_ws_to(s, 1, 1);
        lemma_parse_string_items(s, 1, vs, Seq::<char>::empty());
        assert(parse_string_items(s, 1) == Some((vs, s.len() as int)));
        lemma_skip_ws_to(s, s.len() as int, s.len() as int);
        assert(decode_strings(s) == Some(vs));
    }
}

/// Law: persistence is idempotent. Whatever task list a text decodes to,
/// writing that list out, loading it again and writing it out once more
/// produces the same text both times.
pub proof fn lemma_save_after_load_idempotent(text: Seq<char>)
    requires
        decode_infos(text) is Some,
    ensures
        ({
            let once = encode_infos(decode_infos(text)->Some_0);
            decode_infos(once) == decode_infos(text) && encode_infos(decode_infos(once)->Some_0)
                == once
        }),
{
    lemma_task_infos_round_trip(decode_infos(text)->Some_0);
}

// ---------------------------------------------------------------------------
// the writer, executable
// ---------------------------------------------------------------------------

/// Relies on std's `String::push`: appends one character.
#[verifier::external_body]
pub(crate) fn push_char(s: &mut String, c: char)
    ensures
        final(s)@ == old(s)@.push(c),
{
    s.push(c);
}

/// Appends a quoted, escaped string value.
fn encode_string_into(out: &mut String, value: &str)
    ensures
        final(out)@ == old(out)@ + quoted(value@),
{
    push_char(out, '"');
    let n = value.unicode_len();
    let mut k: usize = 0;
    while k < n
        invariant
            n as nat == value@.len(),
            k <= n,
            out@ == old(out)@ + seq!['"'] + escape_str(value@.subrange(0, k as int)),
        decreases n - k,
    {
        let c = value.get_char(k);
        let ghost prefix = value@.subrange(0, k as int);
        let ghost before = out@;
        proof {
            assert(value@.subrange(0, k as int + 1) =~= prefix.push(c));
            lemma_escape_push(prefix, c);
        }
        if c == '"' {
            push_char(out, '\\');
            push_char(out, '"');
        } else if c == '\\' {
            push_char(out, '\\');
            push_char(out, '\\');
        } else if c == '\n' {
            push_char(out, '\\');
            push_char(out, 'n');
        } else if c == '\r' {
            push_char(out, '\\');
            push_char(out, 'r');
        } else if c == '\t' {
            push_char(out, '\\');
            push_char(out, 't');
        } else {
            push_char(out, c);
        }
        proof {
            assert(out@ =~= before + escape_char(c));
            assert(before + escape_char(c) =~= old(out)@ + seq!['"'] + escape_str(prefix.push(c)));
        }
        k = k + 1;
    }
    push_char(out, '"');
    proof {
        assert(value@.subrange(0, n as int) =~= value@);
        assert((old(out)@ + seq!['"'] + escape_str(value@)).push('"') =~= old(out)@ + quoted(
            value@,
        ));
    }
}

/// Appends one descriptor as an object block.
#[verifier::rlimit(100)]
fn encode_info_into(out: &mut String, info: &BzTaskInfo)
    ensures
        final(out)@ == old(out)@ + encode_info_text(info@),
{
    proof {
        reveal_strlit("{");
        reveal_strlit("\n    \"src\": ");
        reveal_strlit("\n    \"dest\": ");
        reveal_strlit("\n    \"cache\": ");
        reveal_strlit("\n    \"kind\": ");
        reveal_strlit("\n    \"status\": ");
        reveal_strlit(",");
        reveal_strlit("\n  }");
        reveal_strlit("M3u8");
        reveal_strlit("Zfs");
        reveal_strlit("Queued");
        reveal_strlit("Running");
        reveal_strlit("Stopped");
        reveal_strlit("Completed");
        reveal_strlit("Failed");
    }
    out.append("{");
    out.append("\n    \"src\": ");
    encode_string_into(out, info.src.as_str());
    out.append(",");
    out.append("\n    \"dest\": ");
    encode_string_into(out, info.dest.as_str());
    out.append(",");
    out.append("\n    \"cache\": ");
    encode_string_into(out, info.cache.as_str());
    out.append(",");
    out.append("\n    \"kind\": ");
    match info.kind {
        BzTaskType::M3u8 => encode_string_into(out, "M3u8"),
        BzTaskType::Zfs => encode_string_into(out, "Zfs"),
    }
    out.append(",");
    out.append("\n    \"status\": ");
    match info.status {
        BzTaskStatus::Queued => encode_string_into(out, "Queued"),
        BzTaskStatus::Running => encode_string_into(out, "Running"),
        BzTaskStatus::Stopped => encode_string_into(out, "Stopped"),
        BzTaskStatus::Completed => encode_string_into(out, "Completed"),
        BzTaskStatus::Failed => encode_string_into(out, "Failed"),
    }
    out.append("\n  }");
    proof {
        assert(("M3u8")@ =~= kind_text(BzTaskType::M3u8));
        assert(("Zfs")@ =~= kind_text(BzTaskType::Zfs));
        assert(("Queued")@ =~= status_text(BzTaskStatus::Queued));
        assert(("Running")@ =~= status_text(BzTaskStatus::Running));
        assert(("Stopped")@ =~= status_text(BzTaskStatus::Stopped));
        assert(("Completed")@ =~= status_text(BzTaskStatus::Completed));
        assert(("Failed")@ =~= status_text(BzTaskStatus::Failed));
        assert(("\n    \"src\": ")@ =~= seq!['\n', ' ', ' ', ' ', ' ', '"'] + key_src() + seq![
            '"',
            ':',
            ' ',
        ]);
        assert(("\n    \"dest\": ")@ =~= seq!['\n', ' ', ' ', ' ', ' ', '"'] + key_dest() + seq![
            '"',
            ':',
            ' ',
        ]);
        assert(("\n    \"cache\": ")@ =~= seq!['\n', ' ', ' ', ' ', ' ', '"'] + key_cache() + seq![
            '"',
            ':',
            ' ',
        ]);
        assert(("\n    \"kind\": ")@ =~= seq!['\n', ' ', ' ', ' ', ' ', '"'] + key_kind() + seq![
            '"',
            ':',
            ' ',
        ]);
        assert(("\n    \"status\": ")@ =~= seq!['\n', ' ', ' ', ' ', ' ', '"'] + key_status()
            + seq!['"', ':', ' ']);
        assert(out@ =~= old(out)@ + encode_info_text(info@));
    }
}

/// Splitting the last element off a written array body.
proof fn lemma_encode_items_snoc(vs: Seq<BzTaskInfoV>)
    requires
        vs.len() >= 2,
    ensures
        encode_items(vs) == encode_items(vs.drop_last()) + seq![','] + item_text(vs.last()),
    decreases vs.len(),
{
    let tail = vs.skip(1);
    assert(encode_items(vs) == item_text(vs[0]) + seq![','] + encode_items(tail));
    if vs.len() == 2 {
        assert(tail.len() == 1);
        assert(encode_items(tail) == item_text(tail[0]));
        assert(vs.drop_last() =~= seq![vs[0]]);
        assert(encode_items(vs.drop_last()) == item_text(vs[0]));
        assert(tail[0] == vs.last());
    } else {
        lemma_encode_items_snoc(tail);
        assert(vs.drop_last() =~= seq![vs[0]] + tail.drop_last());
        assert(vs.drop_last().skip(1) =~= tail.drop_last());
        assert(vs.drop_last().len() >= 2);
        assert(encode_items(vs.drop_last()) == item_text(vs[0]) + seq![','] + encode_items(
            tail.drop_last(),
        ));
        assert(tail.last() == vs.last());
        assert(item_text(vs[0]) + seq![','] + (encode_items(tail.drop_last()) + seq![',']
            + item_text(tail.last())) =~= (item_text(vs[0]) + seq![','] + encode_items(
            tail.drop_last(),
        )) + seq![','] + item_text(tail.last()));
    }
}

/// Splitting the last element off a written string-array body.
proof fn lemma_encode_string_items_snoc(vs: Seq<Seq<char>>)
    requires
        vs.len() >= 2,
    ensures
        encode_string_items(vs) == encode_string_items(vs.drop_last()) + seq![','] + quoted(
            vs.last(),
        ),
    decreases vs.len(),
{
    let tail = vs.skip(1);
    assert(encode_string_items(vs) == quoted(vs[0]) + seq![','] + encode_string_items(tail));
    if vs.len() == 2 {
        assert(tail.len() == 1);
        assert(encode_string_items(tail) == quoted(tail[0]));
        assert(vs.drop_last() =~= seq![vs[0]]);
        assert(encode_string_items(vs.drop_last()) == quoted(vs[0]));
        assert(tail[0] == vs.last());
    } else {
        lemma_encode_string_items_snoc(tail);
        assert(vs.drop_last() =~= seq![vs[0]] + tail.drop_last());
        assert(vs.drop_last().skip(1) =~= tail.drop_last());
        assert(vs.drop_last().len() >= 2);
        assert(encode_string_items(vs.drop_last()) == quoted(vs[0]) + seq![',']
            + encode_string_items(tail.drop_last()));
        assert(tail.last() == vs.last());
        assert(quoted(vs[0]) + seq![','] + (encode_string_items(tail.drop_last()) + seq![',']
            + quoted(tail.last())) =~= (quoted(vs[0]) + seq![','] + encode_string_items(
            tail.drop_last(),
        )) + seq![','] + quoted(tail.last()));
    }
}

/// Writes a task list out as its persistent text.
pub fn encode_task_infos(infos: &Vec<BzTaskInfo>) -> (r: String)
    ensures
        r@ == encode_infos(infos_view(infos@)),
{
    let ghost vs = infos_view(infos@);
    if infos.len() == 0 {
        proof {
            reveal_strlit("[]");
            assert(("[]")@ =~= seq!['[', ']']);
        }
        return "[]".to_owned();
    }
    proof {
        reveal_strlit("[");
        reveal_strlit(",");
        reveal_strlit("\n  ");
        reveal_strlit("\n]");
    }
    let mut out = String::new();
    out.append("[");
    let mut k: usize = 0;
    while k < infos.len()
        invariant
            k <= infos@.len(),
            infos@.len() >= 1,
            vs == infos_view(infos@),
            k == 0 ==> out@ == seq!['['],
            k >= 1 ==> out@ == seq!['['] + encode_items(vs.subrange(0, k as int)),
            ("[")@ == seq!['['],
            (",")@ == seq![','],
            ("\n  ")@ == seq!['\n', ' ', ' '],
        decreases infos@.len() - k,
    {
        let ghost before = out@;
        if k > 0 {
            out.append(",");
        }
        out.append("\n  ");
        encode_info_into(&mut out, &infos[k]);
        proof {
            assert(vs[k as int] == infos@[k as int]@);
            assert(item_text(vs[k as int]) == seq!['\n', ' ', ' '] + encode_info_text(
                vs[k as int],
            ));
            if k == 0 {
                assert(vs.subrange(0, 1) =~= seq![vs[0]]);
                assert(encode_items(vs.subrange(0, 1)) == item_text(vs[0]));
                assert(out@ =~= seq!['['] + encode_items(vs.subrange(0, 1)));
            } else {
                let sub1 = vs.subrange(0, k as int + 1);
                assert(sub1.len() >= 2);
                lemma_encode_items_snoc(sub1);
                assert(sub1.drop_last() =~= vs.subrange(0, k as int));
                assert(sub1.last() == vs[k as int]);
                assert(out@ =~= seq!['['] + encode_items(sub1));
            }
        }
        k = k + 1;
    }
    out.append("\n]");
    proof {
        assert(vs.subrange(0, vs.len() as int) =~= vs);
        assert(out@ =~= seq!['['] + encode_items(vs) + seq!['\n', ']']);
    }
    out
}

/// Writes a downloaded set out as its sidecar text.
pub fn encode_string_list(items: &Vec<String>) -> (r: String)
    ensures
        r@ == encode_strings(strings_view(items@)),
{
    let ghost vs = strings_view(items@);
    if items.len() == 0 {
        proof {
            reveal_strlit("[]");
            assert(("[]")@ =~= seq!['[', ']']);
        }
        return "[]".to_owned();
    }
    proof {
        reveal_strlit("[");
        reveal_strlit(",");
        reveal_strlit("]");
    }
    let mut out = String::new();
    out.append("[");
    let mut k: usize = 0;
    while k < items.len()
        invariant
            k <= items@.len(),
            items@.len() >= 1,
            vs == strings_view(items@),
            k == 0 ==> out@ == seq!['['],
            k >= 1 ==> out@ == seq!['['] + encode_string_items(vs.subrange(0, k as int)),
            ("[")@ == seq!['['],
            (",")@ == seq![','],
        decreases items@.len() - k,
    {
        if k > 0 {
            out.append(",");
        }
        encode_string_into(&mut out, items[k].as_str());
        proof {
            assert(vs[k as int] == items@[k as int]@);
            if k == 0 {
                assert(vs.subrange(0, 1) =~= seq![vs[0]]);
                assert(encode_string_items(vs.subrange(0, 1)) == quoted(vs[0]));
                assert(out@ =~= seq!['['] + encode_string_items(vs.subrange(0, 1)));
            } else {
                let sub1 = vs.subrange(0, k as int + 1);
                assert(sub1.len() >= 2);
                lemma_encode_string_items_snoc(sub1);
                assert(sub1.drop_last() =~= vs.subrange(0, k as int));
                assert(sub1.last() == vs[k as int]);
                assert(out@ =~= seq!['['] + encode_string_items(sub1));
            }
        }
        k = k + 1;
    }
    out.append("]");
    proof {
        assert(vs.subrange(0, vs.len() as int) =~= vs);
        assert(out@ =~= seq!['['] + encode_string_items(vs) + seq![']']);
    }
    out
}

// ---------------------------------------------------------------------------
// the reader, executable
// ---------------------------------------------------------------------------

/// Whether a character is a blank.
fn is_ws_exec(c: char) -> (r: bool)
    ensures
        r == is_ws(c),
{
    c == ' ' || c == '\n' || c == '\r' || c == '\t'
}

/// Executable `skip_ws`.
fn skip_ws_exec(s: &str, n: usize, i: usize) -> (r: usize)
    requires
        n as nat == s@.len(),
        i <= n,
    ensures
        r as int == skip_ws(s@, i as int),
        i <= r <= n,
{
    let mut p = i;
    while p < n
        invariant
            i <= p <= n,
            n as nat == s@.len(),
            skip_ws(s@, i as int) == skip_ws(s@, p as int),
        decreases n - p,
    {
        let c = s.get_char(p);
        if !is_ws_exec(c) {
            return p;
        }
        p = p + 1;
    }
    p
}

/// Executable `unescape_char`.
fn unescape_exec(c: char) -> (r: Option<char>)
    ensures
        r == unescape_char(c),
{
    if c == '"' {
        Some('"')
    } else if c == '\\' {
        Some('\\')
    } else if c == '/' {
        Some('/')
    } else if c == 'n' {
        Some('\n')
    } else if c == 'r' {
        Some('\r')
    } else if c == 't' {
        Some('\t')
    } else {
        None
    }
}

/// Executable `parse_string_body`.
fn parse_string_body_exec(s: &str, n: usize, i: usize) -> (r: Option<(String, usize)>)
    requires
        n as nat == s@.len(),
        i <= n,
    ensures
        match r {
            Some(vj) => parse_string_body(s@, i as int) == Some((vj.0@, vj.1 as int)) && vj.1 <= n,
            None => parse_string_body(s@, i as int) is None,
        },
{
    let mut acc = String::new();
    let mut p = i;
    while p < n
        invariant
            i <= p <= n,
            n as nat == s@.len(),
            parse_string_body(s@, i as int) == match parse_string_body(s@, p as int) {
                Some((v, j)) => Some((acc@ + v, j)),
                None => None,
            },
        decreases n - p,
    {
        let c = s.get_char(p);
        if c == '"' {
            proof {
                assert(parse_string_body(s@, p as int) == Some((Seq::<char>::empty(), p as int
                    + 1)));
                assert(acc@ + Seq::<char>::empty() =~= acc@);
            }
            return Some((acc, p + 1));
        } else if c == '\\' {
            if p + 1 >= n {
                return None;
            }
            let e = s.get_char(p + 1);
            let c2 = match unescape_exec(e) {
                Some(x) => x,
                None => {
                    return None;
                },
            };
            proof {
                let pr = parse_string_body(s@, p as int + 2);
                if pr is Some {
                    let (v, j) = pr->Some_0;
                    assert(parse_string_body(s@, p as int) == Some((seq![c2] + v, j)));
                    assert(acc@ + (seq![c2] + v) =~= acc@.push(c2) + v);
                } else {
                    assert(parse_string_body(s@, p as int) is None);
                }
            }
            push_char(&mut acc, c2);
            p = p + 2;
        } else {
            proof {
                let pr = parse_string_body(s@, p as int + 1);
                if pr is Some {
                    let (v, j) = pr->Some_0;
                    assert(parse_string_body(s@, p as int) == Some((seq![c] + v, j)));
                    assert(acc@ + (seq![c] + v) =~= acc@.push(c) + v);
                } else {
                    assert(parse_string_body(s@, p as int) is None);
                }
            }
            push_char(&mut acc, c);
            p = p + 1;
        }
    }
    None
}

/// Executable `parse_string`.
fn parse_string_exec(s: &str, n: usize, i: usize) -> (r: Option<(String, usize)>)
    requires
        n as nat == s@.len(),
        i <= n,
    ensures
        match r {
            Some(vj) => parse_string(s@, i as int) == Some((vj.0@, vj.1 as int)) && vj.1 <= n,
            None => parse_string(s@, i as int) is None,
        },
{
    if i >= n {
        return None;
    }
    if s.get_char(i) != '"' {
        return None;
    }
    parse_string_body_exec(s, n, i + 1)
}

/// Executable `match_lit`.
fn match_lit_exec(s: &str, n: usize, i: usize, lit: &str, litn: usize) -> (r: bool)
    requires
        n as nat == s@.len(),
        i <= n,
        litn as nat == lit@.len(),
    ensures
        r == match_lit(s@, i as int, lit@),
{
    if litn > n - i {
        return false;
    }
    let mut k: usize = 0;
    while k < litn
        invariant
            i + litn <= n,
            n as nat == s@.len(),
            litn as nat == lit@.len(),
            k <= litn,
            forall|m: int| 0 <= m < k ==> s@[i + m] == lit@[m],
        decreases litn - k,
    {
        if s.get_char(i + k) != lit.get_char(k) {
            proof {
                assert(!match_lit(s@, i as int, lit@)) by {
                    if match_lit(s@, i as int, lit@) {
                        assert(s@.subrange(i as int, i as int + lit@.len() as int)[k as int]
                            == lit@[k as int]);
                    }
                }
            }
            return false;
        }
        k = k + 1;
    }
    proof {
        assert(s@.subrange(i as int, i as int + lit@.len() as int) =~= lit@);
    }
    true
}

/// Executable `parse_field`.
fn parse_field_exec(s: &str, n: usize, i: usize, name: &str) -> (r: Option<(String, usize)>)
    requires
        n as nat == s@.len(),
        i <= n,
    ensures
        match r {
            Some(vj) => parse_field(s@, i as int, name@) == Some((vj.0@, vj.1 as int)) && vj.1
                <= n,
            None => parse_field(s@, i as int, name@) is None,
        },
{
    let namen = name.unicode_len();
    let i1 = skip_ws_exec(s, n, i);
    if n - i1 < 2 || n - i1 - 2 < namen {
        return None;
    }
    if s.get_char(i1) != '"' {
        return None;
    }
    if !match_lit_exec(s, n, i1 + 1, name, namen) {
        return None;
    }
    if s.get_char(i1 + namen + 1) != '"' {
        return None;
    }
    let i2 = skip_ws_exec(s, n, i1 + namen + 2);
    if i2 >= n {
        return None;
    }
    if s.get_char(i2) != ':' {
        return None;
    }
    let i3 = skip_ws_exec(s, n, i2 + 1);
    parse_string_exec(s, n, i3)
}

/// Executable `parse_comma`.
fn parse_comma_exec(s: &str, n: usize, i: usize) -> (r: Option<usize>)
    requires
        n as nat == s@.len(),
        i <= n,
    ensures
        match r {
            Some(j) => parse_comma(s@, i as int) == Some(j as int) && j <= n,
            None => parse_comma(s@, i as int) is None,
        },
{
    let i1 = skip_ws_exec(s, n, i);
    if i1 < n && s.get_char(i1) == ',' {
        Some(i1 + 1)
    } else {
        None
    }
}

/// The kind a parsed text stands for.
fn kind_from_string(v: &String) -> (r: Option<BzTaskType>)
    ensures
        r == kind_of_text(v@),
{
    proof {
        reveal_strlit("M3u8");
        reveal_strlit("Zfs");
        assert(("M3u8")@ =~= kind_text(BzTaskType::M3u8));
        assert(("Zfs")@ =~= kind_text(BzTaskType::Zfs));
    }
    let m: String = "M3u8".to_owned();
    if *v == m {
        return Some(BzTaskType::M3u8);
    }
    let z: String = "Zfs".to_owned();
    if *v == z {
        return Some(BzTaskType::Zfs);
    }
    None
}

/// The status a parsed text stands for.
fn status_from_string(v: &String) -> (r: Option<BzTaskStatus>)
    ensures
        r == status_of_text(v@),
{
    proof {
        reveal_strlit("Queued");
        reveal_strlit("Running");
        reveal_strlit("Stopped");
        reveal_strlit("Completed");
        reveal_strlit("Failed");
        assert(("Queued")@ =~= status_text(BzTaskStatus::Queued));
        assert(("Running")@ =~= status_text(BzTaskStatus::Running));
        assert(("Stopped")@ =~= status_text(BzTaskStatus::Stopped));
        assert(("Completed")@ =~= status_text(BzTaskStatus::Completed));
        assert(("Failed")@ =~= status_text(BzTaskStatus::Failed));
    }
    let t1: String = "Queued".to_owned();
    if *v == t1 {
        return Some(BzTaskStatus::Queued);
    }
    let t2: String = "Running".to_owned();
    if *v == t2 {
        return Some(BzTaskStatus::Running);
    }
    let t3: String = "Stopped".to_owned();
    if *v == t3 {
        return Some(BzTaskStatus::Stopped);
    }
    let t4: String = "Completed".to_owned();
    if *v == t4 {
        return Some(BzTaskStatus::Completed);
    }
    let t5: String = "Failed".to_owned();
    if *v == t5 {
        return Some(BzTaskStatus::Failed);
    }
    None
}

/// Executable `parse_info`.
fn parse_info_exec(s: &str, n: usize, i: usize) -> (r: Option<(BzTaskInfo, usize)>)
    requires
        n as nat == s@.len(),
        i <= n,
    ensures
        match r {
            Some(vj) => parse_info(s@, i as int) == Some((vj.0@, vj.1 as int)) && vj.1 <= n,
            None => parse_info(s@, i as int) is None,
        },
{
    proof {
        reveal_strlit("src");
        reveal_strlit("dest");
        reveal_strlit("cache");
        reveal_strlit("kind");
        reveal_strlit("status");
        assert(("src")@ =~= key_src());
        assert(("dest")@ =~= key_dest());
        assert(("cache")@ =~= key_cache());
        assert(("kind")@ =~= key_kind());
        assert(("status")@ =~= key_status());
    }
    let i0 = skip_ws_exec(s, n, i);
    if i0 >= n {
        return None;
    }
    if s.get_char(i0) != '{' {
        return None;
    }
    let (src, p1) = match parse_field_exec(s, n, i0 + 1, "src") {
        Some(x) => x,
        None => {
            return None;
        },
    };
    let q1 = match parse_comma_exec(s, n, p1) {
        Some(x) => x,
        None => {
            return None;
        },
    };
    let (dest, p2) = match parse_field_exec(s, n, q1, "dest") {
        Some(x) => x,
        None => {
            return None;
        },
    };
    let q2 = match parse_comma_exec(s, n, p2) {
        Some(x) => x,
        None => {
            return None;
        },
    };
    let (cache, p3) = match parse_field_exec(s, n, q2, "cache") {
        Some(x) => x,
        None => {
            return None;
        },
    };
    let q3 = match parse_comma_exec(s, n, p3) {
        Some(x) => x,
        None => {
            return None;
        },
    };
    let (kind_raw, p4) = match parse_field_exec(s, n, q3, "kind") {
        Some(x) => x,
        None => {
            return None;
        },
    };
    let q4 = match parse_comma_exec(s, n, p4) {
        Some(x) => x,
        None => {
            return None;
        },
    };
    let (status_raw, p5) = match parse_field_exec(s, n, q4, "status") {
        Some(x) => x,
        None => {
            return None;
        },
    };
    let p6 = skip_ws_exec(s, n, p5);
    if p6 >= n {
        return None;
    }
    if s.get_char(p6) != '}' {
        return None;
    }
    let kind = match kind_from_string(&kind_raw) {
        Some(k) => k,
        None => {
            return None;
        },
    };
    let status = match status_from_string(&status_raw) {
        Some(st) => st,
        None => {
            return None;
        },
    };
    let info = BzTaskInfo { src, dest, cache, kind, status };
    Some((info, p6 + 1))
}

/// Executable `parse_items`.
fn parse_items_exec(s: &str, n: usize, i: usize) -> (r: Option<(Vec<BzTaskInfo>, usize)>)
    requires
        n as nat == s@.len(),
        i <= n,
    ensures
        match r {
            Some(vj) => parse_items(s@, i as int) == Some((infos_view(vj.0@), vj.1 as int)) && vj.1
                <= n,
            None => parse_items(s@, i as int) is None,
        },
    decreases n - i,
{
    let (info, j) = match parse_info_exec(s, n, i) {
        Some(x) => x,
        None => {
            return None;
        },
    };
    let j1 = skip_ws_exec(s, n, j);
    if j1 < i {
        return None;
    }
    if j1 < n && s.get_char(j1) == ',' {
        let (mut rest, k) = match parse_items_exec(s, n, j1 + 1) {
            Some(x) => x,
            None => {
                return None;
            },
        };
        let ghost rest0 = rest@;
        rest.insert(0, info);
        proof {
            assert(rest@ =~= seq![info] + rest0);
            assert(infos_view(rest@) =~= seq![info@] + infos_view(rest0));
        }
        return Some((rest, k));
    }
    if j1 < n && s.get_char(j1) == ']' {
        let mut one: Vec<BzTaskInfo> = Vec::new();
        one.push(info);
        proof {
            assert(infos_view(one@) =~= seq![info@]);
        }
        return Some((one, j1 + 1));
    }
    None
}

/// Reads a task list back from its persistent text: the descriptors, or
/// `None` when the text is not a well-formed task list.
pub fn decode_task_infos(s: &str) -> (r: Option<Vec<BzTaskInfo>>)
    ensures
        match r {
            Some(infos) => decode_infos(s@) == Some(infos_view(infos@)),
            None => decode_infos(s@) is None,
        },
{
    let n = s.unicode_len();
    let i1 = skip_ws_exec(s, n, 0);
    if i1 >= n {
        return None;
    }
    if s.get_char(i1) != '[' {
        return None;
    }
    let i2 = skip_ws_exec(s, n, i1 + 1);
    if i2 < n && s.get_char(i2) == ']' {
        let j2 = skip_ws_exec(s, n, i2 + 1);
        if j2 == n {
            let empty: Vec<BzTaskInfo> = Vec::new();
            proof {
                assert(infos_view(empty@) =~= Seq::<BzTaskInfoV>::empty());
            }
            return Some(empty);
        } else {
            return None;
        }
    }
    let (infos, j) = match parse_items_exec(s, n, i1 + 1) {
        Some(x) => x,
        None => {
            return None;
        },
    };
    let j2 = skip_ws_exec(s, n, j);
    if j2 == n {
        Some(infos)
    } else {
        None
    }
}

/// Executable `parse_string_items`.
fn parse_string_items_exec(s: &str, n: usize, i: usize) -> (r: Option<(Vec<String>, usize)>)
    requires
        n as nat == s@.len(),
        i <= n,
    ensures
        match r {
            Some(vj) => parse_string_items(s@, i as int) == Some((strings_view(vj.0@), vj.1 as int))
                && vj.1 <= n,
            None => parse_string_items(s@, i as int) is None,
        },
    decreases n - i,
{
    let i0 = skip_ws_exec(s, n, i);
    let (item, j) = match parse_string_exec(s, n, i0) {
        Some(x) => x,
        None => {
            return None;
        },
    };
    let j1 = skip_ws_exec(s, n, j);
    if j1 < i {
        return None;
    }
    if j1 < n && s.get_char(j1) == ',' {
        let (mut rest, k) = match parse_string_items_exec(s, n, j1 + 1) {
            Some(x) => x,
            None => {
                return None;
            },
        };
        let ghost rest0 = rest@;
        rest.insert(0, item);
        proof {
            assert(rest@ =~= seq![item] + rest0);
            assert(strings_view(rest@) =~= seq![item@] + strings_view(rest0));
        }
        return Some((rest, k));
    }
    if j1 < n && s.get_char(j1) == ']' {
        let mut one: Vec<String> = Vec::new();
        one.push(item);
        proof {
            assert(strings_view(one@) =~= seq![item@]);
        }
        return Some((one, j1 + 1));
    }
    None
}

/// Reads a downloaded set back from its sidecar text: the strings, or
/// `None` when the text is not a well-formed string array.
pub fn decode_string_list(s: &str) -> (r: Option<Vec<String>>)
    ensures
        match r {
            Some(items) => decode_strings(s@) == Some(strings_view(items@)),
            None => decode_strings(s@) is None,
        },
{
    let n = s.unicode_len();
    let i1 = skip_ws_exec(s, n, 0);
    if i1 >= n {
        return None;
    }
    if s.get_char(i1) != '[' {
        return None;
    }
    let i2 = skip_ws_exec(s, n, i1 + 1);
    if i2 < n && s.get_char(i2) == ']' {
        let j2 = skip_ws_exec(s, n, i2 + 1);
        if j2 == n {
            let empty: Vec<String> = Vec::new();
            proof {
                assert(strings_view(empty@) =~= Seq::<Seq<char>>::empty());
            }
            return Some(empty);
        } else {
            return None;
        }
    }
    let (items, j) = match parse_string_items_exec(s, n, i1 + 1) {
        Some(x) => x,
        None => {
            return None;
        },
    };
    let j2 = skip_ws_exec(s, n, j);
    if j2 == n {
        Some(items)
    } else {
        None
    }
}

} // verus!
