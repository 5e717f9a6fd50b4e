//! The fixed section-keyword vocabulary of an actor specification, with the
//! documented default content for every keyword that may be omitted.

use vstd::prelude::*;

verus! {

/// One keyword of the closed section vocabulary. The leading actor name is
/// positional and has no keyword, so it is not listed here.
#[derive(Clone, Copy, PartialEq, Eq, Structural, Debug)]
pub enum Keyword {
    PublicVisibility,
    Docs,
    Input,
    InputDerive,
    Data,
    OnInit,
    OnMessage,
    TickInterval,
    OnTick,
    OnStop,
    Spawner,
    SpawnerReturnType,
    CustomCode,
}

/// The characters of a keyword as it appears in specification text.
pub open spec fn keyword_chars(k: Keyword) -> Seq<char> {
    match k {
        Keyword::PublicVisibility => seq![
            'p', 'u', 'b', 'l', 'i', 'c', '_', 'v', 'i', 's', 'i', 'b', 'i', 'l', 'i', 't', 'y',
        ],
        Keyword::Docs => seq!['d', 'o', 'c', 's'],
        Keyword::Input => seq!['i', 'n', 'p', 'u', 't'],
        Keyword::InputDerive => seq!['i', 'n', 'p', 'u', 't', '_', 'd', 'e', 'r', 'i', 'v', 'e'],
        Keyword::Data => seq!['d', 'a', 't', 'a'],
        Keyword::OnInit => seq!['o', 'n', '_', 'i', 'n', 'i', 't'],
        Keyword::OnMessage => seq!['o', 'n', '_', 'm', 'e', 's', 's', 'a', 'g', 'e'],
        Keyword::TickInterval => seq![
            't', 'i', 'c', 'k', '_', 'i', 'n', 't', 'e', 'r', 'v', 'a', 'l',
        ],
        Keyword::OnTick => seq!['o', 'n', '_', 't', 'i', 'c', 'k'],
        Keyword::OnStop => seq!['o', 'n', '_', 's', 't', 'o', 'p'],
        Keyword::Spawner => seq!['s', 'p', 'a', 'w', 'n', 'e', 'r'],
        Keyword::SpawnerReturnType => seq![
            's', 'p', 'a', 'w', 'n', 'e', 'r', '_', 'r', 'e', 't', 'u', 'r', 'n', '_', 't', 'y',
            'p', 'e',
        ],
        Keyword::CustomCode => seq!['c', 'u', 's', 't', 'o', 'm', '_', 'c', 'o', 'd', 'e'],
    }
}

/// The documented default content of a keyword: empty for most, `100`
/// milliseconds for the tick interval, and the host thread-spawn primitive
/// and its handle type for the spawn strategy.
pub open spec fn default_chars(k: Keyword) -> Seq<char> {
    match k {
        Keyword::TickInterval => seq!['1', '0', '0'],
        Keyword::Spawner => seq![
            's', 't', 'd', ':', ':', 't', 'h', 'r', 'e', 'a', 'd', ':', ':', 's', 'p', 'a', 'w',
            'n',
        ],
        Keyword::SpawnerReturnType => seq![
            's', 't', 'd', ':', ':', 't', 'h', 'r', 'e', 'a', 'd', ':', ':', 'J', 'o', 'i', 'n',
            'H', 'a', 'n', 'd', 'l', 'e', '<', '(', ')', '>',
        ],
        _ => Seq::empty(),
    }
}

/// The vocabulary in its fixed scan order.
pub open spec fn vocab() -> Seq<Keyword> {
    seq![
        Keyword::PublicVisibility,
        Keyword::Docs,
        Keyword::Input,
        Keyword::InputDerive,
        Keyword::Data,
        Keyword::OnInit,
        Keyword::OnMessage,
        Keyword::TickInterval,
        Keyword::OnTick,
        Keyword::OnStop,
        Keyword::Spawner,
        Keyword::SpawnerReturnType,
        Keyword::CustomCode,
    ]
}

/// Every keyword occurs in the vocabulary.
pub proof fn lemma_vocab_complete(k: Keyword)
    ensures
        exists|i: int| 0 <= i < vocab().len() && vocab()[i] == k,
{
    match k {
        Keyword::PublicVisibility => assert(vocab()[0] == k),
        Keyword::Docs => assert(vocab()[1] == k),
        Keyword::Input => assert(vocab()[2] == k),
        Keyword::InputDerive => assert(vocab()[3] == k),
        Keyword::Data => assert(vocab()[4] == k),
        Keyword::OnInit => assert(vocab()[5] == k),
        Keyword::OnMessage => assert(vocab()[6] == k),
        Keyword::TickInterval => assert(vocab()[7] == k),
        Keyword::OnTick => assert(vocab()[8] == k),
        Keyword::OnStop => assert(vocab()[9] == k),
        Keyword::Spawner => assert(vocab()[10] == k),
        Keyword::SpawnerReturnType => assert(vocab()[11] == k),
        Keyword::CustomCode => assert(vocab()[12] == k),
    }
}

/// The keyword characters, as an executable vector.
pub fn keyword_text(k: Keyword) -> (r: Vec<char>)
    ensures
        r@ == keyword_chars(k),
{
    let r: Vec<char> = match k {
        Keyword::PublicVisibility => vec![
            'p', 'u', 'b', 'l', 'i', 'c', '_', 'v', 'i', 's', 'i', 'b', 'i', 'l', 'i', 't', 'y',
        ],
        Keyword::Docs => vec!['d', 'o', 'c', 's'],
        Keyword::Input => vec!['i', 'n', 'p', 'u', 't'],
        Keyword::InputDerive => vec!['i', 'n', 'p', 'u', 't', '_', 'd', 'e', 'r', 'i', 'v', 'e'],
        Keyword::Data => vec!['d', 'a', 't', 'a'],
        Keyword::OnInit => vec!['o', 'n', '_', 'i', 'n', 'i', 't'],
        Keyword::OnMessage => vec!['o', 'n', '_', 'm', 'e', 's', 's', 'a', 'g', 'e'],
        Keyword::TickInterval => vec![
            't', 'i', 'c', 'k', '_', 'i', 'n', 't', 'e', 'r', 'v', 'a', 'l',
        ],
        Keyword::OnTick => vec!['o', 'n', '_', 't', 'i', 'c', 'k'],
        Keyword::OnStop => vec!['o', 'n', '_', 's', 't', 'o', 'p'],
        Keyword::Spawner => vec!['s', 'p', 'a', 'w', 'n', 'e', 'r'],
        Keyword::SpawnerReturnType => vec![
            's', 'p', 'a', 'w', 'n', 'e', 'r', '_', 'r', 'e', 't', 'u', 'r', 'n', '_', 't', 'y',
            'p', 'e',
        ],
        Keyword::CustomCode => vec!['c', 'u', 's', 't', 'o', 'm', '_', 'c', 'o', 'd', 'e'],
    };
    proof {
        assert(r@ =~= keyword_chars(k));
    }
    r
}

/// The default content, as an executable vector.
pub fn default_text(k: Keyword) -> (r: Vec<char>)
    ensures
        r@ == default_chars(k),
{
    let r: Vec<char> = match k {
        Keyword::TickInterval => vec!['1', '0', '0'],
        Keyword::Spawner => vec![
            's', 't', 'd', ':', ':', 't', 'h', 'r', 'e', 'a', 'd', ':', ':', 's', 'p', 'a', 'w',
            'n',
        ],
        Keyword::SpawnerReturnType => vec![
            's', 't', 'd', ':', ':', 't', 'h', 'r', 'e', 'a', 'd', ':', ':', 'J', 'o', 'i', 'n',
            'H', 'a', 'n', 'd', 'l', 'e', '<', '(', ')', '>',
        ],
        _ => Vec::new(),
    };
    proof {
        assert(r@ =~= default_chars(k));
    }
    r
}

/// The vocabulary in scan order, as an executable vector.
pub fn vocabulary() -> (v: Vec<Keyword>)
    ensures
        v@ == vocab(),
{
    let v: Vec<Keyword> = vec![
        Keyword::PublicVisibility,
        Keyword::Docs,
        Keyword::Input,
        Keyword::InputDerive,
        Keyword::Data,
        Keyword::OnInit,
        Keyword::OnMessage,
        Keyword::TickInterval,
        Keyword::OnTick,
        Keyword::OnStop,
        Keyword::Spawner,
        Keyword::SpawnerReturnType,
        Keyword::CustomCode,
    ];
    proof {
        assert(v@ =~= vocab());
    }
    v
}

} // verus!
