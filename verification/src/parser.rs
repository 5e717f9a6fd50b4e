//! The attribute block parser: locates each keyword's delimiter in the raw
//! specification text, segments the text positionally between the located
//! delimiters, trims each segment, and fills in defaults for absent keywords.

use vstd::prelude::*;

use crate::keywords::Keyword;
use crate::keywords::default_text;
use crate::keywords::keyword_chars;
use crate::keywords::keyword_text;
use crate::keywords::lemma_vocab_complete;
use crate::keywords::vocab;
use crate::keywords::vocabulary;
use crate::mapping::AttributeMapping;
use crate::mapping::MappingView;
use crate::text::copy_range;
use crate::text::first_token;
use crate::text::is_ws;
use crate::text::is_ws_char;
use crate::text::scan_token_end;
use crate::text::scan_ws_end;
use crate::text::trimmed_range;
use crate::text::ws_end;

verus! {

/// A failure of the translation pipeline.
#[derive(Clone, Copy, PartialEq, Eq, Structural, Debug)]
pub enum ParseError {
    /// The specification text starts with no name token.
    UnparseableInput,
    /// A required section resolved to empty content.
    MissingRequiredSection(Keyword),
    /// The tick interval section is not a non-negative millisecond count.
    InvalidTickInterval,
}

/// A whitespace run starting at `i` ends at a colon within `s`.
pub open spec fn colon_after(s: Seq<char>, i: int) -> bool {
    let j = ws_end(s, i);
    j < s.len() && s[j] == ':'
}

/// A delimiter of keyword `k` occurs at position `p`: the keyword itself,
/// preceded by the start of the text or whitespace, followed (possibly after
/// whitespace, e.g. a line break) by a colon.
pub open spec fn delim_at(s: Seq<char>, k: Keyword, p: int) -> bool {
    let kw = keyword_chars(k);
    &&& 0 <= p
    &&& p + kw.len() <= s.len()
    &&& s.subrange(p, p + kw.len()) == kw
    &&& (p == 0 || is_ws(s[p - 1]))
    &&& colon_after(s, p + kw.len())
}

/// Where the content of a delimiter of `k` at `p` begins: just past the colon.
pub open spec fn content_start(s: Seq<char>, k: Keyword, p: int) -> int {
    ws_end(s, p + keyword_chars(k).len()) + 1
}

/// The first delimiter of `k` at or after position `p`.
pub open spec fn first_delim_from(s: Seq<char>, k: Keyword, p: int) -> Option<int>
    decreases s.len() - p,
{
    if p < 0 || p > s.len() {
        None
    } else if delim_at(s, k, p) {
        Some(p)
    } else if p == s.len() {
        None
    } else {
        first_delim_from(s, k, p + 1)
    }
}

/// The position of the first delimiter of keyword `k` in the text, if any.
/// The first positional match wins unconditionally, so content that spells
/// out another keyword's delimiter is mis-segmented by design.
pub open spec fn first_delim(s: Seq<char>, k: Keyword) -> Option<int> {
    first_delim_from(s, k, 0)
}

/// Every keyword is at least one character long.
pub proof fn lemma_keyword_nonempty(k: Keyword)
    ensures
        keyword_chars(k).len() >= 4,
{
    match k {
        Keyword::PublicVisibility => assert(keyword_chars(k).len() == 17),
        Keyword::Docs => assert(keyword_chars(k).len() == 4),
        Keyword::Input => assert(keyword_chars(k).len() == 5),
        Keyword::InputDerive => assert(keyword_chars(k).len() == 12),
        Keyword::Data => assert(keyword_chars(k).len() == 4),
        Keyword::OnInit => assert(keyword_chars(k).len() == 7),
        Keyword::OnMessage => assert(keyword_chars(k).len() == 10),
        Keyword::TickInterval => assert(keyword_chars(k).len() == 13),
        Keyword::OnTick => assert(keyword_chars(k).len() == 7),
        Keyword::OnStop => assert(keyword_chars(k).len() == 7),
        Keyword::Spawner => assert(keyword_chars(k).len() == 7),
        Keyword::SpawnerReturnType => assert(keyword_chars(k).len() == 19),
        Keyword::CustomCode => assert(keyword_chars(k).len() == 11),
    }
}

/// `first_delim_from` returns the least matching position at or after `p`.
pub proof fn lemma_first_delim_from(s: Seq<char>, k: Keyword, p: int)
    requires
        0 <= p <= s.len(),
    ensures
        match first_delim_from(s, k, p) {
            Some(q) => {
                &&& p <= q
                &&& delim_at(s, k, q)
                &&& forall|r: int| p <= r < q ==> !delim_at(s, k, r)
            },
            None => forall|r: int| p <= r ==> !delim_at(s, k, r),
        },
    decreases s.len() - p,
{
    lemma_keyword_nonempty(k);
    if !delim_at(s, k, p) && p < s.len() {
        lemma_first_delim_from(s, k, p + 1);
    }
}

/// Characterization of `first_delim` itself.
pub proof fn lemma_first_delim(s: Seq<char>, k: Keyword)
    ensures
        match first_delim(s, k) {
            Some(q) => {
                &&& 0 <= q
                &&& delim_at(s, k, q)
                &&& forall|r: int| 0 <= r < q ==> !delim_at(s, k, r)
            },
            None => forall|r: int| !delim_at(s, k, r),
        },
{
    lemma_first_delim_from(s, k, 0);
    if first_delim(s, k) is None {
        assert forall|r: int| !delim_at(s, k, r) by {
            if r >= 0 {
                assert(!delim_at(s, k, r));
            }
        }
    }
}

/// Whether some keyword's first delimiter lies at position `q`.
pub open spec fn is_section_start(s: Seq<char>, q: int) -> bool {
    exists|k: Keyword| first_delim(s, k) == Some(q)
}

/// The first section start at or after `q`, or the end of the text.
pub open spec fn next_section_start(s: Seq<char>, q: int) -> int
    decreases s.len() - q,
{
    if !(0 <= q < s.len()) {
        s.len() as int
    } else if is_section_start(s, q) {
        q
    } else {
        next_section_start(s, q + 1)
    }
}

pub proof fn lemma_next_section_start(s: Seq<char>, q: int)
    requires
        0 <= q <= s.len(),
    ensures
        q <= next_section_start(s, q) <= s.len(),
        forall|r: int| q <= r < next_section_start(s, q) ==> !is_section_start(s, r),
        next_section_start(s, q) == s.len() || is_section_start(s, next_section_start(s, q)),
    decreases s.len() - q,
{
    if q < s.len() && !is_section_start(s, q) {
        lemma_next_section_start(s, q + 1);
    }
}

/// The raw (untrimmed) content of the section of `k`: the text strictly
/// between the content start of `k`'s delimiter and the next located section
/// start, or `None` when `k` has no delimiter.
pub open spec fn raw_section(s: Seq<char>, k: Keyword) -> Option<Seq<char>> {
    match first_delim(s, k) {
        None => None,
        Some(p) => {
            let cs = content_start(s, k, p);
            Some(s.subrange(cs, next_section_start(s, cs)))
        },
    }
}

/// The content the parser resolves for keyword `k`: its trimmed raw section,
/// or the documented default when the keyword is absent.
pub open spec fn resolved_section(s: Seq<char>, k: Keyword) -> Seq<char> {
    match raw_section(s, k) {
        None => crate::keywords::default_chars(k),
        Some(c) => crate::text::trim(c),
    }
}

/// The actor name: the first whitespace-delimited token of the text before
/// the first located section.
pub open spec fn name_of(s: Seq<char>) -> Seq<char> {
    first_token(s.subrange(0, next_section_start(s, 0)))
}

/// The mapping a specification text resolves to.
pub open spec fn mapping_of(s: Seq<char>) -> MappingView {
    MappingView {
        name: name_of(s),
        public_visibility: resolved_section(s, Keyword::PublicVisibility),
        docs: resolved_section(s, Keyword::Docs),
        input: resolved_section(s, Keyword::Input),
        input_derive: resolved_section(s, Keyword::InputDerive),
        data: resolved_section(s, Keyword::Data),
        on_init: resolved_section(s, Keyword::OnInit),
        on_message: resolved_section(s, Keyword::OnMessage),
        tick_interval: resolved_section(s, Keyword::TickInterval),
        on_tick: resolved_section(s, Keyword::OnTick),
        on_stop: resolved_section(s, Keyword::OnStop),
        spawner: resolved_section(s, Keyword::Spawner),
        spawner_return_type: resolved_section(s, Keyword::SpawnerReturnType),
        custom_code: resolved_section(s, Keyword::CustomCode),
    }
}

/// The error the parser reports for a text, or `None` when parsing succeeds:
/// a missing name token fails first, then an empty required `input` section,
/// then an empty required `on_message` section.
pub open spec fn parse_error_of(s: Seq<char>) -> Option<ParseError> {
    if name_of(s).len() == 0 {
        Some(ParseError::UnparseableInput)
    } else if resolved_section(s, Keyword::Input).len() == 0 {
        Some(ParseError::MissingRequiredSection(Keyword::Input))
    } else if resolved_section(s, Keyword::OnMessage).len() == 0 {
        Some(ParseError::MissingRequiredSection(Keyword::OnMessage))
    } else {
        None
    }
}

/// Whether the exact keyword characters occur at `p` and are preceded by the
/// start of the text or whitespace, with a colon after optional whitespace.
fn delim_at_exec(text: &[char], kw: &Vec<char>, k: Keyword, p: usize) -> (r: bool)
    requires
        kw@ == keyword_chars(k),
        p + kw@.len() <= text@.len(),
    ensures
        r == delim_at(text@, k, p as int),
{
    let n = text.len();
    if p > 0 && !is_ws_char(text[p - 1]) {
        return false;
    }
    let mut i: usize = 0;
    while i < kw.len()
        invariant
            i <= kw@.len(),
            kw@ == keyword_chars(k),
            p + kw@.len() <= text@.len(),
            text@.len() <= usize::MAX,
            forall|t: int| 0 <= t < i ==> text@[p + t] == kw@[t],
        decreases kw@.len() - i,
    {
        if text[p + i] != kw[i] {
            proof {
                assert(text@.subrange(p as int, p + kw@.len())[i as int] != kw@[i as int]);
            }
            return false;
        }
        i += 1;
    }
    proof {
        assert(text@.subrange(p as int, p + kw@.len()) =~= kw@);
    }
    let j = scan_ws_end(text, p + kw.len());
    j < text.len() && text[j] == ':'
}

/// Finds the first delimiter of `k` by left-to-right scan.
fn find_delimiter(text: &[char], k: Keyword) -> (r: Option<usize>)
    ensures
        match r {
            Some(p) => first_delim(text@, k) == Some(p as int),
            None => first_delim(text@, k) is None,
        },
{
    let kw = keyword_text(k);
    if text.len() < kw.len() {
        proof {
            assert forall|q: int| !delim_at(text@, k, q) by {
                assert(keyword_chars(k).len() > text@.len());
            }
            lemma_first_delim(text@, k);
            if first_delim(text@, k) is Some {
                assert(delim_at(text@, k, first_delim(text@, k)->0));
            }
        }
        return None;
    }
    proof {
        lemma_keyword_nonempty(k);
    }
    let n = text.len();
    let limit = n - kw.len();
    let mut p: usize = 0;
    while p <= limit
        invariant
            kw@ == keyword_chars(k),
            4 <= kw@.len() <= text@.len(),
            text@.len() <= usize::MAX,
            limit == text@.len() - kw@.len(),
            p <= limit + 1,
            forall|q: int| 0 <= q < p ==> !delim_at(text@, k, q),
        decreases limit + 1 - p,
    {
        if delim_at_exec(text, &kw, k, p) {
            proof {
                lemma_first_delim(text@, k);
                match first_delim(text@, k) {
                    Some(q) => {
                        assert(!(q < p) && !(p < q));
                    },
                    None => {
                        assert(!delim_at(text@, k, p as int));
                    },
                }
            }
            return Some(p);
        }
        p += 1;
    }
    proof {
        assert forall|q: int| !delim_at(text@, k, q) by {
            if q > limit as int {
                assert(q + keyword_chars(k).len() > text@.len());
            }
        }
        lemma_first_delim(text@, k);
        if first_delim(text@, k) is Some {
            assert(delim_at(text@, k, first_delim(text@, k)->0));
        }
    }
    None
}

/// The located first delimiters, one entry per vocabulary keyword in scan
/// order, agree with the text.
pub open spec fn delims_ok(s: Seq<char>, ds: Seq<Option<usize>>) -> bool {
    &&& ds.len() == vocab().len()
    &&& forall|i: int|
        0 <= i < ds.len() ==> match #[trigger] ds[i] {
            Some(p) => first_delim(s, vocab()[i]) == Some(p as int),
            None => first_delim(s, vocab()[i]) is None,
        }
}

/// Locates the first delimiter of every vocabulary keyword.
fn compute_delims(text: &[char]) -> (ds: Vec<Option<usize>>)
    ensures
        delims_ok(text@, ds@),
{
    let voc = vocabulary();
    let mut ds: Vec<Option<usize>> = Vec::new();
    let mut i: usize = 0;
    while i < voc.len()
        invariant
            voc@ == vocab(),
            i <= voc@.len(),
            ds@.len() == i,
            forall|j: int|
                0 <= j < i ==> match #[trigger] ds@[j] {
                    Some(p) => first_delim(text@, vocab()[j]) == Some(p as int),
                    None => first_delim(text@, vocab()[j]) is None,
                },
        decreases voc@.len() - i,
    {
        let d = find_delimiter(text, voc[i]);
        ds.push(d);
        i += 1;
    }
    ds
}

/// Whether some keyword's first delimiter lies at `q`, given the located
/// delimiters.
fn is_section_start_exec(text: &[char], ds: &Vec<Option<usize>>, q: usize) -> (r: bool)
    requires
        delims_ok(text@, ds@),
    ensures
        r == is_section_start(text@, q as int),
{
    let mut i: usize = 0;
    while i < ds.len()
        invariant
            delims_ok(text@, ds@),
            i <= ds@.len(),
            forall|j: int| 0 <= j < i ==> ds@[j] != Some(q),
        decreases ds@.len() - i,
    {
        let hit = match ds[i] {
            Some(p) => p == q,
            None => false,
        };
        if hit {
            proof {
                let k = vocab()[i as int];
                assert(first_delim(text@, k) == Some(q as int));
            }
            return true;
        }
        i += 1;
    }
    proof {
        assert forall|k: Keyword| first_delim(text@, k) != Some(q as int) by {
            lemma_vocab_complete(k);
            let j = choose|j: int| 0 <= j < vocab().len() && vocab()[j] == k;
            assert(ds@[j] != Some(q));
            match ds@[j] {
                Some(p) => {
                    assert(first_delim(text@, k) == Some(p as int));
                },
                None => {},
            }
        }
    }
    false
}

/// The first section start at or after `q`, given the located delimiters.
fn next_section_start_exec(text: &[char], ds: &Vec<Option<usize>>, q: usize) -> (r: usize)
    requires
        delims_ok(text@, ds@),
        q <= text@.len(),
    ensures
        r == next_section_start(text@, q as int),
        q <= r <= text@.len(),
    decreases text@.len() - q,
{
    if q == text.len() {
        return q;
    }
    if is_section_start_exec(text, ds, q) {
        return q;
    }
    next_section_start_exec(text, ds, q + 1)
}

/// Resolves the content of the vocabulary keyword at index `i`.
fn resolved_section_exec(text: &[char], ds: &Vec<Option<usize>>, i: usize, k: Keyword) -> (r: Vec<
    char,
>)
    requires
        delims_ok(text@, ds@),
        i < vocab().len(),
        vocab()[i as int] == k,
    ensures
        r@ == resolved_section(text@, k),
{
    match ds[i] {
        None => default_text(k),
        Some(p) => {
            let n = text.len();
            proof {
                lemma_first_delim(text@, k);
                assert(delim_at(text@, k, p as int));
                crate::text::lemma_ws_end(text@, p + keyword_chars(k).len());
            }
            let kw = keyword_text(k);
            let j = scan_ws_end(text, p + kw.len());
            let cs = j + 1;
            let e = next_section_start_exec(text, ds, cs);
            trimmed_range(text, cs, e)
        },
    }
}

/// Extracts the actor name: the first token before the first located section.
fn extract_name(text: &[char], ds: &Vec<Option<usize>>) -> (r: Vec<char>)
    requires
        delims_ok(text@, ds@),
    ensures
        r@ == name_of(text@),
{
    let e0 = next_section_start_exec(text, ds, 0);
    let raw = copy_range(text, 0, e0);
    let a = scan_ws_end(raw.as_slice(), 0);
    let b = scan_token_end(raw.as_slice(), a);
    copy_range(raw.as_slice(), a, b)
}

/// Parses one actor specification into its resolved attribute mapping.
///
/// Each keyword's first delimiter is located by positional scan; the text is
/// segmented strictly between located delimiters in offset order; each
/// segment is trimmed; absent keywords resolve to their documented defaults.
/// Parsing fails exactly when the text starts with no name token, or when a
/// required section (`input`, `on_message`) resolves to empty content.
pub fn parse(text: &[char]) -> (r: Result<AttributeMapping, ParseError>)
    ensures
        r is Ok <==> parse_error_of(text@) is None,
        r matches Ok(m) ==> m@ == mapping_of(text@),
        r matches Err(e) ==> parse_error_of(text@) == Some(e),
{
    let ds = compute_delims(text);
    let name = extract_name(text, &ds);
    if name.len() == 0 {
        return Err(ParseError::UnparseableInput);
    }
    let public_visibility = resolved_section_exec(text, &ds, 0, Keyword::PublicVisibility);
    let docs = resolved_section_exec(text, &ds, 1, Keyword::Docs);
    let input = resolved_section_exec(text, &ds, 2, Keyword::Input);
    if input.len() == 0 {
        return Err(ParseError::MissingRequiredSection(Keyword::Input));
    }
    let input_derive = resolved_section_exec(text, &ds, 3, Keyword::InputDerive);
    let data = resolved_section_exec(text, &ds, 4, Keyword::Data);
    let on_init = resolved_section_exec(text, &ds, 5, Keyword::OnInit);
    let on_message = resolved_section_exec(text, &ds, 6, Keyword::OnMessage);
    if on_message.len() == 0 {
        return Err(ParseError::MissingRequiredSection(Keyword::OnMessage));
    }
    let tick_interval = resolved_section_exec(text, &ds, 7, Keyword::TickInterval);
    let on_tick = resolved_section_exec(text, &ds, 8, Keyword::OnTick);
    let on_stop = resolved_section_exec(text, &ds, 9, Keyword::OnStop);
    let spawner = resolved_section_exec(text, &ds, 10, Keyword::Spawner);
    let spawner_return_type = resolved_section_exec(text, &ds, 11, Keyword::SpawnerReturnType);
    let custom_code = resolved_section_exec(text, &ds, 12, Keyword::CustomCode);
    let m = AttributeMapping {
        name,
        public_visibility,
        docs,
        input,
        input_derive,
        data,
        on_init,
        on_message,
        tick_interval,
        on_tick,
        on_stop,
        spawner,
        spawner_return_type,
        custom_code,
    };
    proof {
        assert(m@ =~= mapping_of(text@));
    }
    Ok(m)
}

} // verus!
