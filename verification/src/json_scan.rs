//! Finding values in texts that hold pieces of JSON.

use crate::json;
use crate::json::JsonValue;
use crate::text;
use vstd::prelude::*;
use vstd::slice::slice_subrange;

verus! {

/// How far a scan has come: how many objects are open, and whether it is in a string and behind a
/// backslash there.
pub struct Scan {
    pub depth: nat,
    pub in_string: bool,
    pub escape: bool,
}

impl Scan {
    pub open spec fn start() -> Scan {
        Scan { depth: 0, in_string: false, escape: false }
    }

    /// The scan after one character more.
    pub open spec fn step(self, c: char) -> Scan {
        if self.in_string {
            Scan {
                depth: self.depth,
                in_string: self.escape || c != '"',
                escape: !self.escape && c == '\\',
            }
        } else if c == '"' {
            Scan { in_string: true, ..self }
        } else if c == '{' {
            Scan { depth: self.depth + 1, ..self }
        } else if c == '}' {
            Scan {
                depth: if self.depth > 0 {
                    (self.depth - 1) as nat
                } else {
                    0
                },
                ..self
            }
        } else {
            self
        }
    }

    /// The character closes the outermost object.
    pub open spec fn closes(self, c: char) -> bool {
        !self.in_string && c == '}' && self.step(c).depth == 0
    }
}

/// Where, from `i` on, the outermost object ends: behind its closing brace.
pub open spec fn object_end(s: Seq<char>, i: int, scan: Scan) -> Option<int>
    decreases s.len() - i,
{
    if i < 0 || i >= s.len() {
        None
    } else if scan.closes(s[i]) {
        Some(i + 1)
    } else {
        object_end(s, i + 1, scan.step(s[i]))
    }
}

/// Where the object stands that follows on the first `key` in a text: from its opening brace to
/// behind its closing one.
pub open spec fn object_after(s: Seq<char>, key: Seq<char>) -> Option<(int, int)> {
    match text::find(s, key) {
        Some(k) => match text::find(s.skip(k), "{"@) {
            Some(j) => match object_end(s, k + j, Scan::start()) {
                Some(end) => Some((k + j, end)),
                None => None,
            },
            None => None,
        },
        None => None,
    }
}

/// The text of that object.
pub open spec fn object_text(s: Seq<char>, key: Seq<char>) -> Option<Seq<char>> {
    match object_after(s, key) {
        Some((start, end)) => Some(s.subrange(start, end)),
        None => None,
    }
}

proof fn lemma_object_end(s: Seq<char>, i: int, scan: Scan)
    requires
        0 <= i,
    ensures
        match object_end(s, i, scan) {
            Some(end) => i < end <= s.len() && s[end - 1] == '}',
            None => true,
        },
    decreases s.len() - i,
{
    if i < s.len() && !scan.closes(s[i]) {
        lemma_object_end(s, i + 1, scan.step(s[i]));
    }
}

fn find_object_end(s: &[char], start: usize) -> (r: Option<usize>)
    requires
        start <= s@.len(),
    ensures
        match r {
            Some(end) => object_end(s@, start as int, Scan::start()) == Some(end as int) && start
                < end <= s@.len(),
            None => object_end(s@, start as int, Scan::start()) is None,
        },
{
    let total: usize = s.len();
    let mut depth: usize = 0;
    let mut in_string: bool = false;
    let mut escape: bool = false;
    let mut i: usize = start;
    while i < total
        invariant
            total == s@.len(),
            start <= i <= total,
            depth <= i - start,
            object_end(s@, start as int, Scan::start()) == object_end(
                s@,
                i as int,
                Scan { depth: depth as nat, in_string, escape },
            ),
        decreases total - i,
    {
        let c: char = s[i];
        if in_string {
            if escape {
                escape = false;
            } else if c == '\\' {
                escape = true;
            } else if c == '"' {
                in_string = false;
            }
        } else if c == '"' {
            in_string = true;
        } else if c == '{' {
            depth += 1;
        } else if c == '}' {
            if depth > 0 {
                depth -= 1;
            }
            if depth == 0 {
                return Some(i + 1);
            }
        }
        i += 1;
    }
    None
}

/// Finds the object that follows on the first `key` in a text.
pub fn extract_json_object_after_key<'a>(s: &'a [char], key: &str) -> (r: Option<&'a [char]>)
    ensures
        match r {
            Some(o) => object_text(s@, key@) == Some(o@),
            None => object_text(s@, key@) is None,
        },
{
    let total: usize = s.len();
    proof {
        reveal_strlit("{");
    }
    let key_index: usize = match text::position(s, key) {
        Some(k) => k,
        None => {
            return None;
        },
    };
    let rest: &'a [char] = slice_subrange(s, key_index, total);
    assert(rest@ =~= s@.skip(key_index as int));
    let object_start: usize = match text::position(rest, "{") {
        Some(j) => key_index + j,
        None => {
            return None;
        },
    };
    match find_object_end(s, object_start) {
        Some(end) => Some(slice_subrange(s, object_start, end)),
        None => None,
    }
}

/// The text between the quotes of a string that is written behind them, up to the first quote
/// without a backslash before it that counts.
pub open spec fn quote_from(s: Seq<char>, i: int, escape: bool) -> Option<int>
    decreases s.len() - i,
{
    if i < 0 || i >= s.len() {
        None
    } else if escape {
        quote_from(s, i + 1, false)
    } else if s[i] == '\\' {
        quote_from(s, i + 1, true)
    } else if s[i] == '"' {
        Some(i)
    } else {
        quote_from(s, i + 1, false)
    }
}

/// A name in quotes.
pub open spec fn quoted(s: Seq<char>) -> Seq<char> {
    "\""@ + s + "\""@
}

/// What stands between the quotes of the string under the first `key` of a text, as it is written.
pub open spec fn raw_field(s: Seq<char>, key: Seq<char>) -> Option<Seq<char>> {
    match text::find(s, quoted(key)) {
        Some(k) => {
            let after = s.skip(k + quoted(key).len());
            match text::find(after, ":"@) {
                Some(colon) => {
                    let value = text::trim_start(after.skip(colon + 1));
                    if value.len() > 0 && value[0] == '"' {
                        match quote_from(value.drop_first(), 0, false) {
                            Some(end) => Some(value.drop_first().take(end)),
                            None => None,
                        }
                    } else {
                        None
                    }
                },
                None => None,
            }
        },
        None => None,
    }
}

/// The string under the first `key` of a text, where it can be read.
pub open spec fn string_field(s: Seq<char>, key: Seq<char>) -> Option<Seq<char>> {
    match raw_field(s, key) {
        Some(raw) => match json::parsed(quoted(raw)) {
            Some(value) => value.as_text(),
            None => None,
        },
        None => None,
    }
}

fn find_quote(s: &[char]) -> (r: Option<usize>)
    ensures
        match r {
            Some(i) => quote_from(s@, 0, false) == Some(i as int) && i < s@.len(),
            None => quote_from(s@, 0, false) is None,
        },
{
    let mut escape: bool = false;
    let mut i: usize = 0;
    while i < s.len()
        invariant
            i <= s@.len(),
            quote_from(s@, 0, false) == quote_from(s@, i as int, escape),
        decreases s@.len() - i,
    {
        if escape {
            escape = false;
        } else if s[i] == '\\' {
            escape = true;
        } else if s[i] == '"' {
            return Some(i);
        }
        i += 1;
    }
    None
}

fn in_quotes(s: &str) -> (r: String)
    ensures
        r@ == quoted(s@),
{
    let mut out: String = text::owned("\"");
    text::push_str(&mut out, s);
    text::push_str(&mut out, "\"");
    out
}

/// Finds what stands between the quotes of the string under the first `key` of a text.
pub fn find_raw_field<'a>(s: &'a [char], key: &str) -> (r: Option<&'a [char]>)
    ensures
        match r {
            Some(raw) => raw_field(s@, key@) == Some(raw@),
            None => raw_field(s@, key@) is None,
        },
{
    proof {
        reveal_strlit(":");
    }
    let total: usize = s.len();
    let pattern: String = in_quotes(key);
    let pattern_len: usize = text::chars(pattern.as_str()).len();
    let key_index: usize = match text::position(s, pattern.as_str()) {
        Some(k) => k,
        None => {
            return None;
        },
    };
    let after_key: &'a [char] = slice_subrange(s, key_index + pattern_len, total);
    assert(after_key@ =~= s@.skip(key_index + quoted(key@).len()));
    let colon: usize = match text::position(after_key, ":") {
        Some(colon) => colon,
        None => {
            return None;
        },
    };
    let after_len: usize = after_key.len();
    let rest: &'a [char] = slice_subrange(after_key, colon + 1, after_len);
    assert(rest@ =~= after_key@.skip(colon + 1));
    let value: &'a [char] = text::trimmed_start(rest);
    let value_len: usize = value.len();
    if value_len == 0 || value[0] != '"' {
        return None;
    }
    let content: &'a [char] = slice_subrange(value, 1, value_len);
    assert(content@ =~= value@.drop_first());
    match find_quote(content) {
        Some(end) => {
            let raw: &'a [char] = slice_subrange(content, 0, end);
            assert(raw@ =~= content@.take(end as int));
            Some(raw)
        },
        None => None,
    }
}

/// Finds the string under the first `key` of a text.
pub fn extract_json_string_field(s: &[char], key: &str) -> (r: Option<String>)
    ensures
        text::optional_view(r) == string_field(s@, key@),
{
    match find_raw_field(s, key) {
        Some(raw) => {
            let raw_text: String = text::string(raw);
            match json::parse_json(in_quotes(raw_text.as_str()).as_str()) {
                Some(JsonValue::Text(value)) => Some(value),
                _ => None,
            }
        },
        None => None,
    }
}

/// The object that is found begins with its opening brace, ends with its closing one, and stands
/// in the text not before the key.
pub proof fn law_found_objects_are_in_braces(s: Seq<char>, key: Seq<char>)
    requires
        object_after(s, key) is Some,
    ensures
        ({
            let (start, end) = object_after(s, key)->0;
            let o = object_text(s, key)->0;
            &&& text::find(s, key)->0 <= start < end <= s.len()
            &&& o == s.subrange(start, end)
            &&& o[0] == '{'
            &&& o.last() == '}'
        }),
{
    reveal_strlit("{");
    let k = text::find(s, key)->0;
    text::lemma_find(s, key);
    text::lemma_find(s.skip(k), "{"@);
    let j = text::find(s.skip(k), "{"@)->0;
    lemma_object_end(s, k + j, Scan::start());
    let hit = s.skip(k).subrange(j, j + 1);
    assert(hit[0] == "{"@[0]);
    assert(s[k + j] == hit[0]);
}

/// Within the object that is found, the braces outside of strings balance at its end and nowhere
/// before: no proper beginning of it is an object.
pub proof fn law_found_objects_close_once(s: Seq<char>, i: int, scan: Scan)
    requires
        0 <= i,
        object_end(s, i, scan) is Some,
    ensures
        ({
            let end = object_end(s, i, scan)->0;
            &&& scan_over(s.subrange(i, end - 1), scan).closes(s[end - 1])
            &&& forall|n: int|
                i <= n < end - 1 ==> !(#[trigger] scan_over(s.subrange(i, n), scan)).closes(s[n])
        }),
    decreases s.len() - i,
{
    let end = object_end(s, i, scan)->0;
    lemma_object_end(s, i, scan);
    if scan.closes(s[i]) {
        assert(s.subrange(i, i) =~= Seq::empty());
    } else {
        let next = scan.step(s[i]);
        law_found_objects_close_once(s, i + 1, next);
        assert forall|n: int| i + 1 <= n <= s.len() implies #[trigger] scan_over(
            s.subrange(i, n),
            scan,
        ) == scan_over(s.subrange(i + 1, n), next) by {
            assert(s.subrange(i, n).drop_first() =~= s.subrange(i + 1, n));
        }
        assert(s.subrange(i, i) =~= Seq::empty());
        lemma_object_end(s, i + 1, next);
        assert(scan_over(s.subrange(i, end - 1), scan) == scan_over(
            s.subrange(i + 1, end - 1),
            next,
        ));
        assert forall|n: int| i <= n < end - 1 implies !(#[trigger] scan_over(
            s.subrange(i, n),
            scan,
        )).closes(s[n]) by {
            if n > i {
                assert(scan_over(s.subrange(i, n), scan) == scan_over(s.subrange(i + 1, n), next));
            }
        }
    }
}

/// The scan after a piece of text.
pub open spec fn scan_over(s: Seq<char>, scan: Scan) -> Scan
    decreases s.len(),
{
    if s.len() == 0 {
        scan
    } else {
        scan_over(s.drop_first(), scan.step(s[0]))
    }
}

} // verus!
