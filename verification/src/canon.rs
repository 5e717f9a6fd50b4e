//! Canonical rendering of a resolved mapping: the actor name followed by
//! `keyword: content` for every non-default section, in vocabulary order.

use vstd::prelude::*;

use crate::keywords::Keyword;
use crate::keywords::default_chars;
use crate::keywords::default_text;
use crate::keywords::keyword_chars;
use crate::keywords::keyword_text;
use crate::keywords::vocab;
use crate::keywords::vocabulary;
use crate::mapping::AttributeMapping;
use crate::mapping::MappingView;
use crate::text::copy_range;

verus! {

/// The rendered header of one section: a newline, the keyword, a colon and a
/// space.
pub open spec fn header_chars(k: Keyword) -> Seq<char> {
    seq!['\n'] + keyword_chars(k) + seq![':', ' ']
}

/// The rendering of a list of keyword sections, each as its header followed
/// by its content.
pub open spec fn render_sections(ss: Seq<(Keyword, Seq<char>)>) -> Seq<char>
    decreases ss.len(),
{
    if ss.len() == 0 {
        Seq::empty()
    } else {
        header_chars(ss[0].0) + ss[0].1 + render_sections(ss.drop_first())
    }
}

/// The rendering of a whole specification: the name, then the sections.
pub open spec fn render(name: Seq<char>, ss: Seq<(Keyword, Seq<char>)>) -> Seq<char> {
    name + render_sections(ss)
}

/// The non-default sections of a mapping from vocabulary index `i` on, in
/// vocabulary order.
pub open spec fn canon_sections(m: MappingView, i: int) -> Seq<(Keyword, Seq<char>)>
    decreases vocab().len() - i,
{
    if i < 0 || i >= vocab().len() {
        Seq::empty()
    } else {
        let k = vocab()[i];
        let rest = canon_sections(m, i + 1);
        if m.sect(k) == default_chars(k) {
            rest
        } else {
            seq![(k, m.sect(k))] + rest
        }
    }
}

/// The canonical text of a mapping.
pub open spec fn canonical_chars(m: MappingView) -> Seq<char> {
    render(m.name, canon_sections(m, 0))
}

/// Character-vector equality.
fn vec_chars_eq(a: &Vec<char>, b: &Vec<char>) -> (r: bool)
    ensures
        r == (a@ == b@),
{
    if a.len() != b.len() {
        return false;
    }
    let mut i: usize = 0;
    while i < a.len()
        invariant
            a@.len() == b@.len(),
            i <= a@.len(),
            forall|j: int| 0 <= j < i ==> a@[j] == b@[j],
        decreases a@.len() - i,
    {
        if a[i] != b[i] {
            return false;
        }
        i += 1;
    }
    proof {
        assert(a@ =~= b@);
    }
    true
}

/// Renders the non-default sections from vocabulary index `i` on.
fn canonical_sections_text(m: &AttributeMapping, voc: &Vec<Keyword>, i: usize) -> (r: Vec<char>)
    requires
        voc@ == vocab(),
        i <= vocab().len(),
    ensures
        r@ == render_sections(canon_sections(m@, i as int)),
    decreases vocab().len() - i,
{
    if i == voc.len() {
        Vec::new()
    } else {
        let k = voc[i];
        let sect = m.section(k);
        let dflt = default_text(k);
        let rest = canonical_sections_text(m, voc, i + 1);
        if vec_chars_eq(sect, &dflt) {
            rest
        } else {
            let mut out: Vec<char> = Vec::new();
            out.push('\n');
            let mut kw = keyword_text(k);
            out.append(&mut kw);
            out.push(':');
            out.push(' ');
            let mut c = copy_range(sect.as_slice(), 0, sect.len());
            out.append(&mut c);
            let mut rst = rest;
            out.append(&mut rst);
            proof {
                let pair = (k, m@.sect(k));
                let list = seq![pair] + canon_sections(m@, i + 1);
                assert(canon_sections(m@, i as int) == list);
                assert(list.drop_first() =~= canon_sections(m@, i + 1));
                assert(list[0] == pair);
                assert(sect@.subrange(0, sect@.len() as int) =~= sect@);
                assert(out@ =~= render_sections(canon_sections(m@, i as int)));
            }
            out
        }
    }
}

/// The canonical text of a resolved mapping: the name, then `keyword: content`
/// for every section whose content differs from its documented default.
pub fn canonical_text(m: &AttributeMapping) -> (r: Vec<char>)
    ensures
        r@ == canonical_chars(m@),
{
    let voc = vocabulary();
    let mut out = copy_range(m.name.as_slice(), 0, m.name.len());
    let mut sections = canonical_sections_text(m, &voc, 0);
    out.append(&mut sections);
    proof {
        assert(m.name@.subrange(0, m.name@.len() as int) =~= m.name@);
    }
    out
}

} // verus!
