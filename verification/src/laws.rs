//! The parser's global guarantees: absent keywords resolve to their
//! defaults, segmentation is independent of the order in which sections
//! appear in the text, and re-parsing a mapping's canonical text recovers
//! the mapping.

use vstd::prelude::*;

use crate::canon::canon_sections;
use crate::canon::canonical_chars;
use crate::canon::header_chars;
use crate::canon::render;
use crate::canon::render_sections;
use crate::keywords::Keyword;
use crate::keywords::default_chars;
use crate::keywords::keyword_chars;
use crate::keywords::lemma_vocab_complete;
use crate::keywords::vocab;
use crate::mapping::MappingView;
use crate::parser::colon_after;
use crate::parser::delim_at;
use crate::parser::first_delim;
use crate::parser::lemma_first_delim;
use crate::parser::lemma_keyword_nonempty;
use crate::parser::mapping_of;
use crate::parser::name_of;
use crate::parser::next_section_start;
use crate::parser::parse_error_of;
use crate::parser::resolved_section;
use crate::text::is_ws;
use crate::text::lemma_trim_concat;
use crate::text::lemma_trimmed_endpoints;
use crate::text::lemma_ws_end_concat;
use crate::text::lemma_ws_end_suffix;
use crate::text::lemma_ws_end_unique;
use crate::text::trim;
use crate::text::ws_end;

verus! {

/// Every section a mapping resolves is the corresponding field.
pub proof fn lemma_mapping_of_sect(s: Seq<char>, k: Keyword)
    ensures
        mapping_of(s).sect(k) == resolved_section(s, k),
{
    match k {
        Keyword::PublicVisibility => {},
        Keyword::Docs => {},
        Keyword::Input => {},
        Keyword::InputDerive => {},
        Keyword::Data => {},
        Keyword::OnInit => {},
        Keyword::OnMessage => {},
        Keyword::TickInterval => {},
        Keyword::OnTick => {},
        Keyword::OnStop => {},
        Keyword::Spawner => {},
        Keyword::SpawnerReturnType => {},
        Keyword::CustomCode => {},
    }
}

/// A keyword with no delimiter in the text resolves to its documented
/// default, so a specification that contains only the required sections
/// assigns every optional keyword its default value.
pub proof fn lemma_absent_keywords_default(s: Seq<char>)
    ensures
        forall|k: Keyword|
            first_delim(s, k) is None ==> #[trigger] mapping_of(s).sect(k) == default_chars(k),
{
    assert forall|k: Keyword| first_delim(s, k) is None implies #[trigger] mapping_of(s).sect(k)
        == default_chars(k) by {
        lemma_mapping_of_sect(s, k);
    }
}

/// The characters of a keyword, from index `i` on, are neither whitespace
/// nor a colon.
spec fn clean_chars_from(s: Seq<char>, i: int) -> bool
    decreases s.len() - i,
{
    if i < 0 || i >= s.len() {
        true
    } else {
        !is_ws(s[i]) && s[i] != ':' && clean_chars_from(s, i + 1)
    }
}

proof fn lemma_clean_chars_from(s: Seq<char>, i: int)
    requires
        0 <= i,
        clean_chars_from(s, i),
    ensures
        forall|t: int| i <= t < s.len() ==> !is_ws(#[trigger] s[t]) && s[t] != ':',
    decreases s.len() - i,
{
    if i < s.len() {
        lemma_clean_chars_from(s, i + 1);
    }
}

/// No keyword contains whitespace or a colon.
proof fn lemma_keyword_clean(k: Keyword)
    ensures
        forall|t: int|
            0 <= t < keyword_chars(k).len() ==> !is_ws(#[trigger] keyword_chars(k)[t])
                && keyword_chars(k)[t] != ':',
{
    reveal_with_fuel(clean_chars_from, 25);
    match k {
        Keyword::PublicVisibility => assert(clean_chars_from(keyword_chars(k), 0)),
        Keyword::Docs => assert(clean_chars_from(keyword_chars(k), 0)),
        Keyword::Input => assert(clean_chars_from(keyword_chars(k), 0)),
        Keyword::InputDerive => assert(clean_chars_from(keyword_chars(k), 0)),
        Keyword::Data => assert(clean_chars_from(keyword_chars(k), 0)),
        Keyword::OnInit => assert(clean_chars_from(keyword_chars(k), 0)),
        Keyword::OnMessage => assert(clean_chars_from(keyword_chars(k), 0)),
        Keyword::TickInterval => assert(clean_chars_from(keyword_chars(k), 0)),
        Keyword::OnTick => assert(clean_chars_from(keyword_chars(k), 0)),
        Keyword::OnStop => assert(clean_chars_from(keyword_chars(k), 0)),
        Keyword::Spawner => assert(clean_chars_from(keyword_chars(k), 0)),
        Keyword::SpawnerReturnType => assert(clean_chars_from(keyword_chars(k), 0)),
        Keyword::CustomCode => assert(clean_chars_from(keyword_chars(k), 0)),
    }
    lemma_clean_chars_from(keyword_chars(k), 0);
}

/// Different keywords spell differently.
proof fn lemma_keyword_chars_injective(k1: Keyword, k2: Keyword)
    requires
        keyword_chars(k1) == keyword_chars(k2),
    ensures
        k1 == k2,
{
    assert(keyword_chars(k1).len() == keyword_chars(k2).len());
    assert(keyword_chars(k1)[0] == keyword_chars(k2)[0]);
    assert(keyword_chars(k1)[1] == keyword_chars(k2)[1]);
    assert(keyword_chars(k1)[3] == keyword_chars(k2)[3]);
    match k1 {
        Keyword::PublicVisibility => assert(keyword_chars(k1).len() == 17),
        Keyword::Docs => assert((keyword_chars(k1).len(), keyword_chars(k1)[1]) == (4nat, 'o')),
        Keyword::Input => assert(keyword_chars(k1).len() == 5),
        Keyword::InputDerive => assert(keyword_chars(k1).len() == 12),
        Keyword::Data => assert((keyword_chars(k1).len(), keyword_chars(k1)[1]) == (4nat, 'a')),
        Keyword::OnInit => assert((keyword_chars(k1).len(), keyword_chars(k1)[0], keyword_chars(
            k1,
        )[3]) == (7nat, 'o', 'i')),
        Keyword::OnMessage => assert(keyword_chars(k1).len() == 10),
        Keyword::TickInterval => assert(keyword_chars(k1).len() == 13),
        Keyword::OnTick => assert((keyword_chars(k1).len(), keyword_chars(k1)[0], keyword_chars(
            k1,
        )[3]) == (7nat, 'o', 't')),
        Keyword::OnStop => assert((keyword_chars(k1).len(), keyword_chars(k1)[0], keyword_chars(
            k1,
        )[3]) == (7nat, 'o', 's')),
        Keyword::Spawner => assert((keyword_chars(k1).len(), keyword_chars(k1)[0]) == (
            7nat,
            's',
        )),
        Keyword::SpawnerReturnType => assert(keyword_chars(k1).len() == 19),
        Keyword::CustomCode => assert(keyword_chars(k1).len() == 11),
    }
    match k2 {
        Keyword::PublicVisibility => assert(keyword_chars(k2).len() == 17),
        Keyword::Docs => assert((keyword_chars(k2).len(), keyword_chars(k2)[1]) == (4nat, 'o')),
        Keyword::Input => assert(keyword_chars(k2).len() == 5),
        Keyword::InputDerive => assert(keyword_chars(k2).len() == 12),
        Keyword::Data => assert((keyword_chars(k2).len(), keyword_chars(k2)[1]) == (4nat, 'a')),
        Keyword::OnInit => assert((keyword_chars(k2).len(), keyword_chars(k2)[0], keyword_chars(
            k2,
        )[3]) == (7nat, 'o', 'i')),
        Keyword::OnMessage => assert(keyword_chars(k2).len() == 10),
        Keyword::TickInterval => assert(keyword_chars(k2).len() == 13),
        Keyword::OnTick => assert((keyword_chars(k2).len(), keyword_chars(k2)[0], keyword_chars(
            k2,
        )[3]) == (7nat, 'o', 't')),
        Keyword::OnStop => assert((keyword_chars(k2).len(), keyword_chars(k2)[0], keyword_chars(
            k2,
        )[3]) == (7nat, 'o', 's')),
        Keyword::Spawner => assert((keyword_chars(k2).len(), keyword_chars(k2)[0]) == (
            7nat,
            's',
        )),
        Keyword::SpawnerReturnType => assert(keyword_chars(k2).len() == 19),
        Keyword::CustomCode => assert(keyword_chars(k2).len() == 11),
    }
}

/// A well-formed actor name: non-empty, no whitespace, no colon.
pub open spec fn name_wf(n: Seq<char>) -> bool {
    n.len() > 0 && forall|i: int| 0 <= i < n.len() ==> !is_ws(#[trigger] n[i]) && n[i] != ':'
}

/// A keyword delimiter spelled out within a content string: the keyword's
/// characters followed, possibly after whitespace, by a colon, all inside
/// the string.
pub open spec fn embedded_delim(c: Seq<char>, k: Keyword, p: int) -> bool {
    let kw = keyword_chars(k);
    &&& 0 <= p
    &&& p + kw.len() <= c.len()
    &&& c.subrange(p, p + kw.len()) == kw
    &&& colon_after(c, p + kw.len())
}

/// Well-formed section content: already trimmed, and spelling out no
/// keyword's delimiter (the parser's documented ambiguity limitation).
pub open spec fn content_wf(c: Seq<char>) -> bool {
    &&& trim(c) == c
    &&& forall|k: Keyword, p: int| !embedded_delim(c, k, p)
}

/// A well-formed section list: well-formed contents, each keyword at most
/// once.
pub open spec fn sections_wf(ss: Seq<(Keyword, Seq<char>)>) -> bool {
    &&& forall|i: int| 0 <= i < ss.len() ==> content_wf((#[trigger] ss[i]).1)
    &&& forall|i: int, j: int| 0 <= i < j < ss.len() ==> (#[trigger] ss[i]).0 != (#[trigger] ss[j]).0
}

/// The content a section list assigns to a keyword.
pub open spec fn lookup(ss: Seq<(Keyword, Seq<char>)>, k: Keyword) -> Option<Seq<char>>
    decreases ss.len(),
{
    if ss.len() == 0 {
        None
    } else if ss[0].0 == k {
        Some(ss[0].1)
    } else {
        lookup(ss.drop_first(), k)
    }
}

/// A prefix extended by one rendered section.
spec fn block(a: Seq<char>, ki: Keyword, c: Seq<char>) -> Seq<char> {
    a + (header_chars(ki) + c)
}

/// The index layout of one rendered section appended to a prefix.
proof fn lemma_block_indexing(a: Seq<char>, ki: Keyword, c: Seq<char>)
    ensures
        block(a, ki, c).len() == a.len() + keyword_chars(ki).len() + 3 + c.len(),
        forall|t: int| 0 <= t < a.len() ==> #[trigger] block(a, ki, c)[t] == a[t],
        block(a, ki, c)[a.len() as int] == '\n',
        forall|t: int|
            0 <= t < keyword_chars(ki).len() ==> #[trigger] block(a, ki, c)[a.len() + 1 + t]
                == keyword_chars(ki)[t],
        block(a, ki, c)[a.len() + 1 + keyword_chars(ki).len() as int] == ':',
        block(a, ki, c)[a.len() + 2 + keyword_chars(ki).len() as int] == ' ',
        forall|t: int|
            0 <= t < c.len() ==> #[trigger] block(a, ki, c)[a.len() + 3 + keyword_chars(
                ki,
            ).len() + t] == c[t],
{
    let kw = keyword_chars(ki);
    let hdr = header_chars(ki);
    let s = block(a, ki, c);
    assert(hdr.len() == kw.len() + 3);
    assert(hdr[0] == '\n');
    assert forall|t: int| 0 <= t < kw.len() implies hdr[1 + t] == kw[t] by {
        assert((seq!['\n'] + kw)[1 + t] == kw[t]);
    }
    assert(hdr[1 + kw.len() as int] == ':');
    assert(hdr[2 + kw.len() as int] == ' ');
    assert forall|t: int| 0 <= t < kw.len() implies #[trigger] s[a.len() + 1 + t] == kw[t] by {
        assert(s[a.len() + 1 + t] == (hdr + c)[1 + t]);
    }
    assert(s[a.len() as int] == hdr[0]);
    assert(s[a.len() + 1 + kw.len() as int] == hdr[1 + kw.len() as int]);
    assert(s[a.len() + 2 + kw.len() as int] == hdr[2 + kw.len() as int]);
    assert forall|t: int| 0 <= t < c.len() implies #[trigger] s[a.len() + 3 + kw.len() + t]
        == c[t] by {
        assert(s[a.len() + 3 + kw.len() + t] == (hdr + c)[hdr.len() + t]);
    }
}

/// Appending a block that begins with a newline followed by a keyword
/// character neither creates nor destroys delimiters lying within the
/// prefix.
proof fn lemma_delim_transfer(a: Seq<char>, b: Seq<char>, k: Keyword, p: int)
    requires
        p + keyword_chars(k).len() <= a.len(),
        b.len() == 0 || (b.len() >= 2 && b[0] == '\n' && !is_ws(b[1]) && b[1] != ':'),
    ensures
        delim_at(a + b, k, p) == delim_at(a, k, p),
{
    let kw = keyword_chars(k);
    let s = a + b;
    if b.len() == 0 {
        assert(s =~= a);
        return ;
    }
    if 0 <= p {
        assert(s.subrange(p, p + kw.len()) =~= a.subrange(p, p + kw.len()));
        if p > 0 {
            assert(s[p - 1] == a[p - 1]);
        }
        crate::text::lemma_ws_end(a, p + kw.len());
        lemma_ws_end_concat(a, b, p + kw.len());
        let ja = ws_end(a, p + kw.len());
        if ja < a.len() {
            assert(s[ja] == a[ja]);
        } else {
            assert(!colon_after(a, p + kw.len()));
            assert(s[a.len() as int] == b[0] && is_ws(b[0]));
            assert(s[a.len() + 1 as int] == b[1]);
            lemma_ws_end_unique(s, a.len() as int, a.len() + 1 as int);
            assert(ws_end(s, p + kw.len()) == a.len() + 1);
            assert(!colon_after(s, p + kw.len()));
        }
    }
}

/// In a prefix extended by one rendered section, the delimiters that reach
/// into the new part are exactly one: the new section's own keyword at the
/// character after the prefix's end.
proof fn lemma_delim_new_region(a: Seq<char>, ki: Keyword, c: Seq<char>, k: Keyword, p: int)
    requires
        content_wf(c),
        p + keyword_chars(k).len() > a.len(),
    ensures
        delim_at(block(a, ki, c), k, p) <==> (k == ki && p == a.len() + 1),
{
    let kw = keyword_chars(k);
    let kwi = keyword_chars(ki);
    let s = block(a, ki, c);
    let l = a.len() as int;
    let m = kwi.len() as int;
    lemma_keyword_clean(k);
    lemma_keyword_clean(ki);
    lemma_keyword_nonempty(k);
    lemma_keyword_nonempty(ki);
    lemma_block_indexing(a, ki, c);

    // the one delimiter the new section carries
    if k == ki && p == l + 1 {
        assert(s.subrange(p, p + kw.len()) =~= kw);
        assert(is_ws(s[p - 1]));
        lemma_ws_end_unique(s, l + 1 + m, l + 1 + m);
        assert(colon_after(s, p + kw.len()));
        assert(delim_at(s, k, p));
    }

    if delim_at(s, k, p) {
        assert forall|t: int| 0 <= t < kw.len() implies s[p + t] == kw[t] by {
            assert(s.subrange(p, p + kw.len())[t] == kw[t]);
        }
        // the keyword cannot cover the newline, the colon or the space
        assert(p > l) by {
            if p <= l {
                assert(s[l] == kw[l - p] && is_ws(s[l]));
            }
        }
        assert(p + kw.len() <= l + 1 + m || p >= l + 2 + m) by {
            if p <= l + 1 + m < p + kw.len() {
                assert(s[l + 1 + m] == kw[l + 1 + m - p] && s[l + 1 + m] == ':');
            }
        }
        if p + kw.len() <= l + 1 + m {
            // within the new keyword itself
            assert(p == l + 1) by {
                if p > l + 1 {
                    assert(s[p - 1] == kwi[p - 1 - (l + 1)] && is_ws(s[p - 1]));
                }
            }
            if kw.len() < m {
                assert(s[p + kw.len()] == kwi[kw.len() as int]);
                lemma_ws_end_unique(s, p + kw.len(), p + kw.len());
                assert(!colon_after(s, p + kw.len()));
            } else {
                assert(kw.len() == m);
                assert(kw =~= kwi);
                lemma_keyword_chars_injective(k, ki);
            }
        } else {
            // within the content: the content would spell out a delimiter
            assert(p >= l + 3 + m) by {
                if p == l + 2 + m {
                    assert(s[p] == kw[0] && s[p] == ' ');
                }
            }
            let d = a + header_chars(ki);
            assert(s =~= d + c);
            assert(d.len() == l + 3 + m);
            let q = p - d.len();
            assert(c.subrange(q, q + kw.len()) =~= kw) by {
                assert forall|t: int| 0 <= t < kw.len() implies c.subrange(q, q + kw.len())[t]
                    == kw[t] by {
                    assert(c[q + t] == s[d.len() + q + t]);
                }
            }
            lemma_ws_end_suffix(d, c, p + kw.len());
            let jc = ws_end(c, q + kw.len());
            crate::text::lemma_ws_end(c, q + kw.len());
            assert(ws_end(s, p + kw.len()) == d.len() + jc);
            if jc < c.len() {
                assert(s[d.len() + jc] == c[jc]);
                assert(colon_after(c, q + kw.len()));
                assert(embedded_delim(c, k, q));
            } else {
                assert(d.len() + jc == s.len());
                assert(!colon_after(s, p + kw.len()));
            }
            assert(false);
        }
    }
}


/// Rendering splits at any index.
proof fn lemma_render_sections_split(ss: Seq<(Keyword, Seq<char>)>, i: int)
    requires
        0 <= i <= ss.len(),
    ensures
        render_sections(ss) == render_sections(ss.take(i)) + render_sections(ss.skip(i)),
    decreases i,
{
    if i == 0 {
        assert(ss.take(0) =~= Seq::<(Keyword, Seq<char>)>::empty());
        assert(ss.skip(0) =~= ss);
        assert(render_sections(ss.take(0)) + render_sections(ss) =~= render_sections(ss));
    } else {
        let df = ss.drop_first();
        lemma_render_sections_split(df, i - 1);
        assert(ss.take(i).drop_first() =~= df.take(i - 1));
        assert(ss.skip(i) =~= df.skip(i - 1));
        assert(ss.take(i)[0] == ss[0]);
        let h = header_chars(ss[0].0) + ss[0].1;
        assert(render_sections(ss) == h + render_sections(df));
        assert(render_sections(ss.take(i)) == h + render_sections(df.take(i - 1)));
        assert(h + (render_sections(df.take(i - 1)) + render_sections(df.skip(i - 1))) =~= (h
            + render_sections(df.take(i - 1))) + render_sections(df.skip(i - 1)));
    }
}

/// Rendering one more section appends its header and content.
proof fn lemma_render_sections_snoc(ss: Seq<(Keyword, Seq<char>)>, i: int)
    requires
        0 <= i < ss.len(),
    ensures
        render_sections(ss.take(i + 1)) == render_sections(ss.take(i)) + (header_chars(ss[i].0)
            + ss[i].1),
{
    let t = ss.take(i + 1);
    lemma_render_sections_split(t, i);
    assert(t.take(i) =~= ss.take(i));
    let tail = t.skip(i);
    assert(tail =~= seq![ss[i]]);
    assert(tail.drop_first() =~= Seq::<(Keyword, Seq<char>)>::empty());
    assert(tail[0] == ss[i]);
    assert(render_sections(tail) == header_chars(ss[i].0) + ss[i].1 + render_sections(
        Seq::<(Keyword, Seq<char>)>::empty(),
    ));
    assert(header_chars(ss[i].0) + ss[i].1 + Seq::<char>::empty() =~= header_chars(ss[i].0)
        + ss[i].1);
}

/// Where the keyword of section `j` stands in the rendered text.
spec fn kwpos(name: Seq<char>, ss: Seq<(Keyword, Seq<char>)>, j: int) -> int {
    render(name, ss.take(j)).len() + 1int
}

/// Each section's keyword stands exactly its header and content past the
/// previous one.
proof fn lemma_kwpos_next(name: Seq<char>, ss: Seq<(Keyword, Seq<char>)>, j: int)
    requires
        0 <= j < ss.len(),
    ensures
        kwpos(name, ss, j + 1) == kwpos(name, ss, j) + keyword_chars(ss[j].0).len() + 3
            + ss[j].1.len(),
{
    lemma_render_sections_snoc(ss, j);
}

/// Keyword positions grow strictly along the section list.
proof fn lemma_kwpos_increasing(name: Seq<char>, ss: Seq<(Keyword, Seq<char>)>, j1: int, j2: int)
    requires
        0 <= j1 <= j2 <= ss.len(),
    ensures
        kwpos(name, ss, j1) <= kwpos(name, ss, j2),
    decreases j2 - j1,
{
    if j1 < j2 {
        lemma_kwpos_next(name, ss, j2 - 1);
        lemma_kwpos_increasing(name, ss, j1, j2 - 1);
    }
}

/// A `lookup` hit names an index; a miss rules the keyword out everywhere.
proof fn lemma_lookup_index(ss: Seq<(Keyword, Seq<char>)>, k: Keyword)
    ensures
        match lookup(ss, k) {
            Some(c) => exists|j: int| 0 <= j < ss.len() && #[trigger] ss[j] == (k, c),
            None => forall|j: int| 0 <= j < ss.len() ==> (#[trigger] ss[j]).0 != k,
        },
    decreases ss.len(),
{
    if ss.len() > 0 {
        if ss[0].0 == k {
            assert(ss[0] == (k, ss[0].1));
        } else {
            lemma_lookup_index(ss.drop_first(), k);
            match lookup(ss.drop_first(), k) {
                Some(c) => {
                    let j = choose|j: int|
                        0 <= j < ss.drop_first().len() && #[trigger] ss.drop_first()[j] == (k, c);
                    assert(ss[j + 1] == (k, c));
                },
                None => {
                    assert forall|j: int| 0 <= j < ss.len() implies (#[trigger] ss[j]).0 != k by {
                        if j > 0 {
                            assert(ss.drop_first()[j - 1] == ss[j]);
                        }
                    }
                },
            }
        }
    }
}

/// With distinct keywords, the entry at any index is what `lookup` finds.
proof fn lemma_lookup_at(ss: Seq<(Keyword, Seq<char>)>, j: int)
    requires
        forall|i1: int, i2: int|
            0 <= i1 < i2 < ss.len() ==> (#[trigger] ss[i1]).0 != (#[trigger] ss[i2]).0,
        0 <= j < ss.len(),
    ensures
        lookup(ss, ss[j].0) == Some(ss[j].1),
    decreases j,
{
    if j == 0 {
    } else {
        assert(ss[0].0 != ss[j].0);
        let df = ss.drop_first();
        assert forall|i1: int, i2: int| 0 <= i1 < i2 < df.len() implies (#[trigger] df[i1]).0 != (
        #[trigger] df[i2]).0 by {
            assert(df[i1] == ss[i1 + 1] && df[i2] == ss[i2 + 1]);
        }
        assert(df[j - 1] == ss[j]);
        lemma_lookup_at(df, j - 1);
    }
}

/// A scan over positions free of section starts, ending at a start or at the
/// end of the text, determines `next_section_start`.
proof fn lemma_next_start_unique(s: Seq<char>, q: int, e: int)
    requires
        0 <= q <= e <= s.len(),
        forall|r: int| q <= r < e ==> !crate::parser::is_section_start(s, r),
        e == s.len() || crate::parser::is_section_start(s, e),
    ensures
        next_section_start(s, q) == e,
    decreases e - q,
{
    if q < e {
        lemma_next_start_unique(s, q + 1, e);
    }
}

/// The delimiters of a rendered prefix are exactly the rendered keywords,
/// each at its position.
proof fn lemma_render_delims(name: Seq<char>, ss: Seq<(Keyword, Seq<char>)>, i: int)
    requires
        name_wf(name),
        sections_wf(ss),
        0 <= i <= ss.len(),
    ensures
        forall|k: Keyword, p: int|
            #[trigger] delim_at(render(name, ss.take(i)), k, p) ==> exists|j: int|
                0 <= j < i && (#[trigger] ss[j]).0 == k && p == kwpos(name, ss, j),
        forall|j: int|
            0 <= j < i ==> delim_at(
                render(name, ss.take(i)),
                (#[trigger] ss[j]).0,
                kwpos(name, ss, j),
            ),
    decreases i,
{
    let a = render(name, ss.take(i));
    if i == 0 {
        assert(ss.take(0) =~= Seq::<(Keyword, Seq<char>)>::empty());
        assert(a =~= name);
        assert forall|k: Keyword, p: int| !(#[trigger] delim_at(a, k, p)) by {
            lemma_keyword_nonempty(k);
            if delim_at(a, k, p) {
                let kw = keyword_chars(k);
                if p > 0 {
                    assert(!is_ws(a[p - 1]) && a[p - 1] != ':');
                } else {
                    crate::text::lemma_ws_end(a, kw.len() as int);
                    let j = ws_end(a, kw.len() as int);
                    if kw.len() < a.len() {
                        lemma_ws_end_unique(a, kw.len() as int, kw.len() as int);
                        assert(a[j] != ':');
                    } else {
                        assert(j == a.len());
                    }
                }
            }
        }
    } else {
        lemma_render_delims(name, ss, i - 1);
        let prev = render(name, ss.take(i - 1));
        let ki = ss[i - 1].0;
        let ci = ss[i - 1].1;
        lemma_render_sections_snoc(ss, i - 1);
        assert(a =~= block(prev, ki, ci));
        assert(a == block(prev, ki, ci));
        lemma_keyword_clean(ki);
        lemma_keyword_nonempty(ki);
        let b = header_chars(ki) + ci;
        assert(b.len() >= 2);
        assert(b[0] == '\n' && b[1] == keyword_chars(ki)[0]) by {
            assert(b[0] == header_chars(ki)[0]);
            assert(b[1] == header_chars(ki)[1]);
            assert(header_chars(ki)[1] == (seq!['\n'] + keyword_chars(ki))[1]);
        }
        assert(!is_ws(b[1]) && b[1] != ':');
        assert(content_wf(ci));
        assert(kwpos(name, ss, i - 1) == prev.len() + 1);
        // forward: every delimiter is a rendered keyword
        assert forall|k: Keyword, p: int| #[trigger] delim_at(a, k, p) implies exists|j: int|
            0 <= j < i && (#[trigger] ss[j]).0 == k && p == kwpos(name, ss, j) by {
            if p + keyword_chars(k).len() <= prev.len() {
                lemma_delim_transfer(prev, b, k, p);
                assert(delim_at(prev, k, p));
                let j = choose|j: int|
                    0 <= j < i - 1 && (#[trigger] ss[j]).0 == k && p == kwpos(name, ss, j);
                assert(0 <= j < i && ss[j].0 == k && p == kwpos(name, ss, j));
            } else {
                lemma_delim_new_region(prev, ki, ci, k, p);
                assert(ss[i - 1].0 == k && p == kwpos(name, ss, i - 1));
            }
        }
        // backward: every rendered keyword is a delimiter
        assert forall|j: int| 0 <= j < i implies delim_at(
            a,
            (#[trigger] ss[j]).0,
            kwpos(name, ss, j),
        ) by {
            if j < i - 1 {
                assert(delim_at(prev, ss[j].0, kwpos(name, ss, j)));
                lemma_delim_transfer(prev, b, ss[j].0, kwpos(name, ss, j));
            } else {
                lemma_delim_new_region(prev, ki, ci, ki, prev.len() + 1int);
            }
        }
    }
}


/// In a rendered text, each rendered keyword's first delimiter is its own
/// header position.
proof fn lemma_render_first_delim_at(name: Seq<char>, ss: Seq<(Keyword, Seq<char>)>, j: int)
    requires
        name_wf(name),
        sections_wf(ss),
        0 <= j < ss.len(),
    ensures
        first_delim(render(name, ss), ss[j].0) == Some(kwpos(name, ss, j)),
{
    let r = render(name, ss);
    let n = ss.len() as int;
    lemma_render_delims(name, ss, n);
    assert(ss.take(n) =~= ss);
    assert(render(name, ss.take(n)) == r);
    let k = ss[j].0;
    assert(delim_at(r, k, kwpos(name, ss, j)));
    lemma_first_delim(r, k);
    match first_delim(r, k) {
        Some(q) => {
            assert(delim_at(r, k, q));
            let j2 = choose|j2: int|
                0 <= j2 < n && (#[trigger] ss[j2]).0 == k && q == kwpos(name, ss, j2);
            assert(j2 == j);
            assert(!(q < kwpos(name, ss, j)) && !(kwpos(name, ss, j) < q));
        },
        None => {
            assert(false);
        },
    }
}

/// A keyword no section carries has no delimiter in the rendered text.
proof fn lemma_render_first_delim_absent(name: Seq<char>, ss: Seq<(Keyword, Seq<char>)>, k: Keyword)
    requires
        name_wf(name),
        sections_wf(ss),
        forall|j: int| 0 <= j < ss.len() ==> (#[trigger] ss[j]).0 != k,
    ensures
        first_delim(render(name, ss), k) is None,
{
    let r = render(name, ss);
    let n = ss.len() as int;
    lemma_render_delims(name, ss, n);
    assert(ss.take(n) =~= ss);
    assert(render(name, ss.take(n)) == r);
    lemma_first_delim(r, k);
    match first_delim(r, k) {
        Some(q) => {
            assert(delim_at(r, k, q));
            let j = choose|j: int| 0 <= j < n && (#[trigger] ss[j]).0 == k && q == kwpos(name, ss, j);
            assert(false);
        },
        None => {},
    }
}

/// The section starts of a rendered text are exactly the rendered keyword
/// positions.
proof fn lemma_render_starts(name: Seq<char>, ss: Seq<(Keyword, Seq<char>)>)
    requires
        name_wf(name),
        sections_wf(ss),
    ensures
        forall|x: int|
            #[trigger] crate::parser::is_section_start(render(name, ss), x) ==> exists|j: int|
                0 <= j < ss.len() && x == kwpos(name, ss, j),
        forall|j: int|
            0 <= j < ss.len() ==> crate::parser::is_section_start(
                render(name, ss),
                kwpos(name, ss, j),
            ),
{
    let r = render(name, ss);
    let n = ss.len() as int;
    lemma_render_delims(name, ss, n);
    assert(ss.take(n) =~= ss);
    assert(render(name, ss.take(n)) == r);
    assert forall|x: int| #[trigger] crate::parser::is_section_start(r, x) implies exists|j: int|
        0 <= j < n && x == kwpos(name, ss, j) by {
        let k = choose|k: Keyword| first_delim(r, k) == Some(x);
        lemma_first_delim(r, k);
        assert(delim_at(r, k, x));
        let j = choose|j: int| 0 <= j < n && (#[trigger] ss[j]).0 == k && x == kwpos(name, ss, j);
        assert(0 <= j < n && x == kwpos(name, ss, j));
    }
    assert forall|j: int| 0 <= j < n implies crate::parser::is_section_start(
        r,
        kwpos(name, ss, j),
    ) by {
        lemma_render_first_delim_at(name, ss, j);
        assert(first_delim(r, ss[j].0) == Some(kwpos(name, ss, j)));
    }
}

/// The parser resolves each rendered section back to exactly its content.
#[verifier::rlimit(80)]
proof fn lemma_render_section_content(name: Seq<char>, ss: Seq<(Keyword, Seq<char>)>, j: int)
    requires
        name_wf(name),
        sections_wf(ss),
        0 <= j < ss.len(),
    ensures
        resolved_section(render(name, ss), ss[j].0) == ss[j].1,
{
    let r = render(name, ss);
    let n = ss.len() as int;
    let k = ss[j].0;
    let c = ss[j].1;
    let m = keyword_chars(k).len() as int;
    let pj = kwpos(name, ss, j);
    lemma_keyword_clean(k);
    lemma_keyword_nonempty(k);
    lemma_render_first_delim_at(name, ss, j);
    lemma_render_starts(name, ss);

    // decompose the text around section j
    lemma_render_sections_split(ss, j + 1);
    let aj1 = render(name, ss.take(j + 1));
    let rest = render_sections(ss.skip(j + 1));
    assert(r =~= aj1 + rest);
    lemma_render_sections_snoc(ss, j);
    let aj = render(name, ss.take(j));
    assert(aj1 =~= block(aj, k, c));
    lemma_block_indexing(aj, k, c);
    assert(pj == aj.len() + 1int);
    lemma_kwpos_next(name, ss, j);
    assert(aj1.len() == aj.len() + m + 3 + c.len());
    assert(r.len() == aj1.len() + rest.len());
    assert forall|t: int| 0 <= t < aj1.len() implies r[t] == aj1[t] by {
        assert(r == aj1 + rest);
    }

    // the colon follows the keyword directly, so content starts past it
    assert(r[pj + m] == ':') by {
        assert(aj1[aj.len() + 1int + m] == ':');
    }
    lemma_ws_end_unique(r, pj + m, pj + m);
    let cs = pj + m + 1;
    assert(crate::parser::content_start(r, k, pj) == cs);

    // the section's raw content ends at the next keyword or at the end
    let e: int = if j + 1 < n {
        kwpos(name, ss, j + 1)
    } else {
        r.len() as int
    };
    assert(kwpos(name, ss, j + 1) == aj1.len() + 1int);
    if j + 1 < n {
        assert(e == pj + m + 3 + c.len());
        assert(ss.skip(j + 1).len() > 0);
        assert(rest.len() > 0);
    } else {
        assert(ss.skip(j + 1) =~= Seq::<(Keyword, Seq<char>)>::empty());
        assert(rest.len() == 0);
        assert(e == pj + m + 2 + c.len());
    }
    assert forall|x: int| cs <= x < e implies !crate::parser::is_section_start(r, x) by {
        if crate::parser::is_section_start(r, x) {
            let j2 = choose|j2: int| 0 <= j2 < n && x == kwpos(name, ss, j2);
            if j2 <= j {
                lemma_kwpos_increasing(name, ss, j2, j);
            } else {
                lemma_kwpos_increasing(name, ss, j + 1, j2);
            }
        }
    }
    lemma_next_start_unique(r, cs, e);
    assert(next_section_start(r, cs) == e);

    // the raw content is the content padded by the header space and, in the
    // middle of the text, the next header newline
    let raw = r.subrange(cs, e);
    assert forall|t: int| 0 <= t < c.len() implies raw[1 + t] == c[t] by {
        assert(aj1[aj.len() + 3int + m + t] == c[t]);
    }
    assert(raw[0] == ' ') by {
        assert(aj1[aj.len() + 2int + m] == ' ');
    }
    if c.len() > 0 {
        assert(trim(c) == c);
        lemma_trimmed_endpoints(c);
    }
    if j + 1 < n {
        let tail = ss.skip(j + 1);
        assert(render_sections(tail) == header_chars(tail[0].0) + tail[0].1 + render_sections(
            tail.drop_first(),
        ));
        assert(rest[0] == '\n') by {
            assert(rest[0] == (header_chars(tail[0].0) + tail[0].1)[0]);
            assert(header_chars(tail[0].0)[0] == '\n');
        }
        assert(raw[1 + c.len() as int] == '\n') by {
            assert(e - 1 == aj1.len());
            assert(r[aj1.len() as int] == rest[0]);
        }
        assert(raw =~= seq![' '] + c + seq!['\n']);
        lemma_trim_concat(seq![' '], c, seq!['\n']);
        assert(trim(raw) == c);
    } else {
        assert(raw =~= seq![' '] + c + Seq::<char>::empty());
        lemma_trim_concat(seq![' '], c, Seq::<char>::empty());
        assert(trim(raw) == c);
    }
}


/// The parser recovers the rendered name.
proof fn lemma_render_name(name: Seq<char>, ss: Seq<(Keyword, Seq<char>)>)
    requires
        name_wf(name),
        sections_wf(ss),
    ensures
        name_of(render(name, ss)) == name,
{
    let r = render(name, ss);
    let n = ss.len() as int;
    lemma_render_starts(name, ss);
    if n > 0 {
        assert(kwpos(name, ss, 0) == name.len() + 1int) by {
            assert(ss.take(0) =~= Seq::<(Keyword, Seq<char>)>::empty());
            assert(render(name, ss.take(0)) =~= name);
        }
        let e0: int = name.len() + 1int;
        lemma_render_sections_split(ss, 1);
        let a1 = render(name, ss.take(1));
        assert(r =~= a1 + render_sections(ss.skip(1)));
        lemma_render_sections_snoc(ss, 0);
        let a0 = render(name, ss.take(0));
        assert(a0 =~= name);
        assert(a1 =~= block(a0, ss[0].0, ss[0].1));
        lemma_block_indexing(a0, ss[0].0, ss[0].1);
        lemma_keyword_nonempty(ss[0].0);
        assert(a1.len() >= a0.len() + 7);
        assert(r.len() >= e0);
        assert forall|x: int| 0 <= x < e0 implies !crate::parser::is_section_start(r, x) by {
            if crate::parser::is_section_start(r, x) {
                let j2 = choose|j2: int| 0 <= j2 < n && x == kwpos(name, ss, j2);
                lemma_kwpos_increasing(name, ss, 0, j2);
            }
        }
        lemma_next_start_unique(r, 0, e0);
        let nr = r.subrange(0, e0);
        assert forall|t: int| 0 <= t < name.len() implies nr[t] == name[t] by {
            assert(r[t] == a1[t]);
            assert(a1[t] == a0[t]);
        }
        assert(nr[name.len() as int] == '\n') by {
            assert(r[name.len() as int] == a1[a0.len() as int]);
        }
        let s2 = name + seq!['\n'];
        assert(nr =~= s2);
        assert(s2[0] == name[0] && !is_ws(s2[0]));
        assert(ws_end(s2, 0) == 0);
        assert forall|q: int| 0 <= q < name.len() implies !is_ws(s2[q]) by {
            assert(s2[q] == name[q]);
        }
        assert(is_ws(s2[name.len() as int]));
        crate::text::lemma_token_end_unique(s2, 0, name.len() as int);
        assert(crate::text::first_token(s2) =~= name);
    } else {
        assert forall|x: int| 0 <= x < r.len() implies !crate::parser::is_section_start(r, x) by {
            if crate::parser::is_section_start(r, x) {
                let j2 = choose|j2: int| 0 <= j2 < n && x == kwpos(name, ss, j2);
            }
        }
        lemma_next_start_unique(r, 0, r.len() as int);
        assert(r =~= name);
        let nr = r.subrange(0, r.len() as int);
        assert(nr =~= name);
        assert(!is_ws(name[0]));
        assert(ws_end(name, 0) == 0);
        crate::text::lemma_token_end_unique(name, 0, name.len() as int);
        assert(crate::text::first_token(name) =~= name);
    }
}

/// Rendering a well-formed name and section list and parsing the result
/// recovers the name, every section's content, and the documented default
/// for every absent keyword — wherever in the text each section stands.
pub proof fn lemma_render_parse(name: Seq<char>, ss: Seq<(Keyword, Seq<char>)>)
    requires
        name_wf(name),
        sections_wf(ss),
    ensures
        name_of(render(name, ss)) == name,
        forall|j: int|
            0 <= j < ss.len() ==> resolved_section(render(name, ss), (#[trigger] ss[j]).0)
                == ss[j].1,
        forall|k: Keyword|
            lookup(ss, k) is None ==> #[trigger] resolved_section(render(name, ss), k)
                == default_chars(k),
{
    lemma_render_name(name, ss);
    assert forall|j: int| 0 <= j < ss.len() implies resolved_section(
        render(name, ss),
        (#[trigger] ss[j]).0,
    ) == ss[j].1 by {
        lemma_render_section_content(name, ss, j);
    }
    assert forall|k: Keyword| lookup(ss, k) is None implies #[trigger] resolved_section(
        render(name, ss),
        k,
    ) == default_chars(k) by {
        lemma_lookup_index(ss, k);
        lemma_render_first_delim_absent(name, ss, k);
    }
}

/// The vocabulary index of a keyword.
spec fn kw_index(k: Keyword) -> int {
    match k {
        Keyword::PublicVisibility => 0,
        Keyword::Docs => 1,
        Keyword::Input => 2,
        Keyword::InputDerive => 3,
        Keyword::Data => 4,
        Keyword::OnInit => 5,
        Keyword::OnMessage => 6,
        Keyword::TickInterval => 7,
        Keyword::OnTick => 8,
        Keyword::OnStop => 9,
        Keyword::Spawner => 10,
        Keyword::SpawnerReturnType => 11,
        Keyword::CustomCode => 12,
    }
}

/// The vocabulary lists each keyword at its index.
proof fn lemma_vocab_index()
    ensures
        forall|j: int| 0 <= j < vocab().len() ==> kw_index(#[trigger] vocab()[j]) == j,
        vocab().len() == 13,
{
    assert(kw_index(vocab()[0]) == 0);
    assert(kw_index(vocab()[1]) == 1);
    assert(kw_index(vocab()[2]) == 2);
    assert(kw_index(vocab()[3]) == 3);
    assert(kw_index(vocab()[4]) == 4);
    assert(kw_index(vocab()[5]) == 5);
    assert(kw_index(vocab()[6]) == 6);
    assert(kw_index(vocab()[7]) == 7);
    assert(kw_index(vocab()[8]) == 8);
    assert(kw_index(vocab()[9]) == 9);
    assert(kw_index(vocab()[10]) == 10);
    assert(kw_index(vocab()[11]) == 11);
    assert(kw_index(vocab()[12]) == 12);
}

/// The canonical section list of a mapping is well formed, and its keywords
/// come from the vocabulary suffix it was built from.
proof fn lemma_canon_sections_wf(m: MappingView, i: int)
    requires
        0 <= i,
        forall|k: Keyword| content_wf(#[trigger] m.sect(k)),
    ensures
        sections_wf(canon_sections(m, i)),
        forall|t: int|
            0 <= t < canon_sections(m, i).len() ==> i <= kw_index(
                (#[trigger] canon_sections(m, i)[t]).0,
            ) && canon_sections(m, i)[t].1 == m.sect(canon_sections(m, i)[t].0),
    decreases vocab().len() - i,
{
    lemma_vocab_index();
    if i < vocab().len() {
        lemma_canon_sections_wf(m, i + 1);
        let k = vocab()[i];
        let tail = canon_sections(m, i + 1);
        let cs = canon_sections(m, i);
        if m.sect(k) == default_chars(k) {
        } else {
            let pr = (k, m.sect(k));
            assert(cs == seq![pr] + tail);
            assert(cs[0] == pr);
            assert forall|t: int| 0 <= t < cs.len() implies i <= kw_index((#[trigger] cs[t]).0)
                && cs[t].1 == m.sect(cs[t].0) by {
                if t > 0 {
                    assert(cs[t] == tail[t - 1]);
                }
            }
            assert forall|t1: int, t2: int| 0 <= t1 < t2 < cs.len() implies (#[trigger] cs[t1]).0
                != (#[trigger] cs[t2]).0 by {
                if t1 == 0 {
                    assert(cs[t2] == tail[t2 - 1]);
                    assert(kw_index(cs[t2].0) >= i + 1);
                } else {
                    assert(cs[t1] == tail[t1 - 1] && cs[t2] == tail[t2 - 1]);
                }
            }
            assert forall|t: int| 0 <= t < cs.len() implies content_wf((#[trigger] cs[t]).1) by {
                if t > 0 {
                    assert(cs[t] == tail[t - 1]);
                }
            }
        }
    }
}

/// What the canonical section list assigns to each keyword: its mapping
/// content where that differs from the default, nothing otherwise.
proof fn lemma_canon_lookup(m: MappingView, i: int, k: Keyword)
    requires
        forall|k2: Keyword| content_wf(#[trigger] m.sect(k2)),
        0 <= i <= kw_index(k),
    ensures
        lookup(canon_sections(m, i), k) == (if m.sect(k) == default_chars(k) {
            Option::<Seq<char>>::None
        } else {
            Option::<Seq<char>>::Some(m.sect(k))
        }),
    decreases vocab().len() - i,
{
    lemma_vocab_index();
    lemma_vocab_complete(k);
    let i0 = choose|i0: int| 0 <= i0 < vocab().len() && vocab()[i0] == k;
    assert(kw_index(k) == i0);
    assert(i < vocab().len());
    let ki = vocab()[i];
    let tail = canon_sections(m, i + 1);
    let cs = canon_sections(m, i);
    if i == kw_index(k) {
        assert(ki == k);
        if m.sect(k) == default_chars(k) {
            // the keyword is skipped; nothing later carries it either
            lemma_canon_sections_wf(m, i + 1);
            lemma_lookup_index(tail, k);
            match lookup(tail, k) {
                Some(c) => {
                    let j = choose|j: int| 0 <= j < tail.len() && #[trigger] tail[j] == (k, c);
                    assert(kw_index(tail[j].0) >= i + 1);
                    assert(false);
                },
                None => {},
            }
        } else {
            let pr = (k, m.sect(k));
            assert(cs == seq![pr] + tail);
            assert(cs[0] == pr);
            assert(cs.len() > 0 && cs[0].0 == k);
        }
    } else {
        assert(kw_index(ki) == i && i < kw_index(k));
        assert(ki != k);
        lemma_canon_lookup(m, i + 1, k);
        if m.sect(ki) == default_chars(ki) {
            assert(cs == tail);
        } else {
            let pr = (ki, m.sect(ki));
            assert(cs == seq![pr] + tail);
            assert(cs[0] == pr && cs[0].0 != k);
            assert(cs.drop_first() =~= tail);
        }
    }
}

/// Order independence: two specification texts rendering the same sections,
/// in whatever order, parse to identical attribute mappings.
pub proof fn lemma_order_independence(
    name: Seq<char>,
    s1: Seq<(Keyword, Seq<char>)>,
    s2: Seq<(Keyword, Seq<char>)>,
)
    requires
        name_wf(name),
        sections_wf(s1),
        sections_wf(s2),
        forall|pr: (Keyword, Seq<char>)| s1.contains(pr) <==> s2.contains(pr),
    ensures
        mapping_of(render(name, s1)) == mapping_of(render(name, s2)),
{
    let m1 = mapping_of(render(name, s1));
    let m2 = mapping_of(render(name, s2));
    lemma_render_parse(name, s1);
    lemma_render_parse(name, s2);
    assert forall|k: Keyword| m1.sect(k) == m2.sect(k) by {
        lemma_mapping_of_sect(render(name, s1), k);
        lemma_mapping_of_sect(render(name, s2), k);
        lemma_lookup_index(s1, k);
        lemma_lookup_index(s2, k);
        match lookup(s1, k) {
            Some(c) => {
                let j1 = choose|j1: int| 0 <= j1 < s1.len() && #[trigger] s1[j1] == (k, c);
                assert(s1.contains((k, c)));
                assert(s2.contains((k, c)));
                let j2 = choose|j2: int| 0 <= j2 < s2.len() && #[trigger] s2[j2] == (k, c);
                lemma_lookup_at(s2, j2);
                assert(resolved_section(render(name, s1), k) == c);
                assert(resolved_section(render(name, s2), k) == c);
            },
            None => {
                match lookup(s2, k) {
                    Some(c2) => {
                        let j2 = choose|j2: int| 0 <= j2 < s2.len() && #[trigger] s2[j2] == (
                            k,
                            c2,
                        );
                        assert(s2.contains((k, c2)));
                        assert(s1.contains((k, c2)));
                        let j1 = choose|j1: int| 0 <= j1 < s1.len() && #[trigger] s1[j1] == (
                            k,
                            c2,
                        );
                        assert(false);
                    },
                    None => {},
                }
            },
        }
    }
    m1.lemma_sect_ext(m2);
}

/// Round trip: regenerating a parsed mapping's canonical text and re-parsing
/// recovers the very same mapping, and the re-parse succeeds. Holds for
/// mappings whose name is a plain token and whose contents are trimmed and
/// spell out no keyword delimiter (the documented ambiguity limitation).
pub proof fn lemma_canonical_round_trip(m: MappingView)
    requires
        name_wf(m.name),
        forall|k: Keyword| content_wf(#[trigger] m.sect(k)),
        m.input.len() > 0,
        m.on_message.len() > 0,
    ensures
        mapping_of(canonical_chars(m)) == m,
        parse_error_of(canonical_chars(m)) is None,
{
    let ss = canon_sections(m, 0);
    let canon = canonical_chars(m);
    lemma_vocab_index();
    lemma_canon_sections_wf(m, 0);
    lemma_render_parse(m.name, ss);
    let mp = mapping_of(canon);
    assert forall|k: Keyword| mp.sect(k) == m.sect(k) by {
        lemma_mapping_of_sect(canon, k);
        lemma_canon_lookup(m, 0, k);
        if m.sect(k) == default_chars(k) {
            assert(lookup(ss, k) is None);
        } else {
            assert(lookup(ss, k) == Some(m.sect(k)));
            lemma_lookup_index(ss, k);
            let j = choose|j: int| 0 <= j < ss.len() && #[trigger] ss[j] == (k, m.sect(k));
            assert(resolved_section(canon, ss[j].0) == ss[j].1);
        }
    }
    mp.lemma_sect_ext(m);
    assert(mp.input == m.input) by {
        assert(mp.sect(Keyword::Input) == m.sect(Keyword::Input));
    }
    assert(mp.on_message == m.on_message);
    assert(name_of(canon) == m.name);
}

} // verus!
