//! The typed actor definition: the resolved attribute mapping with the tick
//! interval parsed as a millisecond count and the visibility flag decoded.

use vstd::prelude::*;

use crate::mapping::AttributeMapping;
use crate::mapping::MappingView;
use crate::parser::ParseError;
use crate::text::copy_range;
use crate::text::trim;
use crate::text::trimmed_range;

verus! {

/// Decimal digit test.
pub open spec fn is_digit(c: char) -> bool {
    ||| c == '0'
    ||| c == '1'
    ||| c == '2'
    ||| c == '3'
    ||| c == '4'
    ||| c == '5'
    ||| c == '6'
    ||| c == '7'
    ||| c == '8'
    ||| c == '9'
}

/// The value of a decimal digit (zero for any other character).
pub open spec fn digit_val(c: char) -> nat {
    if c == '1' {
        1
    } else if c == '2' {
        2
    } else if c == '3' {
        3
    } else if c == '4' {
        4
    } else if c == '5' {
        5
    } else if c == '6' {
        6
    } else if c == '7' {
        7
    } else if c == '8' {
        8
    } else if c == '9' {
        9
    } else {
        0
    }
}

pub open spec fn all_digits(s: Seq<char>) -> bool {
    forall|i: int| 0 <= i < s.len() ==> is_digit(#[trigger] s[i])
}

/// The number a digit string denotes, most significant digit first.
pub open spec fn digits_val(s: Seq<char>) -> nat
    decreases s.len(),
{
    if s.len() == 0 {
        0
    } else {
        digits_val(s.drop_last()) * 10 + digit_val(s.last())
    }
}

/// The digit string of a tick-interval section: the section content with one
/// optional trailing comma (and whitespace before it) dropped.
pub open spec fn tick_digits(s: Seq<char>) -> Seq<char> {
    if s.len() > 0 && s.last() == ',' {
        trim(s.drop_last())
    } else {
        s
    }
}

/// A tick-interval section is well formed when its digit string is a
/// non-empty run of decimal digits whose value fits a `u64`.
pub open spec fn tick_wf(s: Seq<char>) -> bool {
    let d = tick_digits(s);
    d.len() > 0 && all_digits(d) && digits_val(d) <= u64::MAX
}

/// The millisecond count a well-formed tick-interval section denotes.
pub open spec fn tick_value(s: Seq<char>) -> nat {
    digits_val(tick_digits(s))
}

/// A longer digit prefix never denotes a smaller number.
proof fn lemma_digits_val_prefix_le(s: Seq<char>, i: int, j: int)
    requires
        0 <= i <= j <= s.len(),
    ensures
        digits_val(s.subrange(0, i)) <= digits_val(s.subrange(0, j)),
    decreases j - i,
{
    if i < j {
        lemma_digits_val_prefix_le(s, i, j - 1);
        let t = s.subrange(0, j);
        assert(t.drop_last() =~= s.subrange(0, j - 1));
        assert(digits_val(s.subrange(0, j - 1)) <= digits_val(t));
    }
}

/// Parses a digit run into its value, reporting overflow and stray
/// characters as `None`.
fn parse_digits(d: &Vec<char>) -> (r: Option<u64>)
    ensures
        r is Some <==> (d@.len() > 0 && all_digits(d@) && digits_val(d@) <= u64::MAX),
        r matches Some(v) ==> v == digits_val(d@),
{
    if d.len() == 0 {
        return None;
    }
    let mut acc: u64 = 0;
    let mut i: usize = 0;
    while i < d.len()
        invariant
            i <= d@.len(),
            all_digits(d@.subrange(0, i as int)),
            acc == digits_val(d@.subrange(0, i as int)),
        decreases d@.len() - i,
    {
        let c = d[i];
        let dv: u64 = if c == '0' {
            0
        } else if c == '1' {
            1
        } else if c == '2' {
            2
        } else if c == '3' {
            3
        } else if c == '4' {
            4
        } else if c == '5' {
            5
        } else if c == '6' {
            6
        } else if c == '7' {
            7
        } else if c == '8' {
            8
        } else if c == '9' {
            9
        } else {
            proof {
                assert(!is_digit(d@[i as int]));
            }
            return None;
        };
        proof {
            assert(is_digit(d@[i as int]) && dv == digit_val(d@[i as int]));
            assert(d@.subrange(0, i + 1).drop_last() =~= d@.subrange(0, i as int));
        }
        let wide: u128 = (acc as u128) * 10 + (dv as u128);
        if wide > u64::MAX as u128 {
            proof {
                assert(digits_val(d@.subrange(0, i + 1)) > u64::MAX);
                lemma_digits_val_prefix_le(d@, i + 1, d@.len() as int);
                assert(d@.subrange(0, d@.len() as int) =~= d@);
            }
            return None;
        }
        acc = (wide as u64);
        i += 1;
    }
    proof {
        assert(d@.subrange(0, d@.len() as int) =~= d@);
    }
    Some(acc)
}

/// Parses a tick-interval section content into a millisecond count.
pub fn parse_tick_interval(content: &Vec<char>) -> (r: Option<u64>)
    ensures
        r is Some <==> tick_wf(content@),
        r matches Some(v) ==> v == tick_value(content@),
{
    let d: Vec<char> = if content.len() > 0 && content[content.len() - 1] == ',' {
        let t = trimmed_range(content.as_slice(), 0, content.len() - 1);
        proof {
            assert(content@.subrange(0, content@.len() - 1) =~= content@.drop_last());
        }
        t
    } else {
        copy_range(content.as_slice(), 0, content.len())
    };
    proof {
        assert(content@.subrange(0, content@.len() as int) =~= content@);
        assert(d@ == tick_digits(content@));
    }
    parse_digits(&d)
}

/// The characters of the literal `true`.
pub open spec fn true_chars() -> Seq<char> {
    seq!['t', 'r', 'u', 'e']
}

/// Whether `t` occurs as a contiguous subsequence of `s`.
pub open spec fn contains_seq(s: Seq<char>, t: Seq<char>) -> bool {
    exists|p: int| 0 <= p && p + t.len() <= s.len() && #[trigger] s.subrange(p, p + t.len()) == t
}

/// Whether the visibility section requests a public actor: it does exactly
/// when its content contains the word `true`.
pub fn contains_true(s: &Vec<char>) -> (r: bool)
    ensures
        r == contains_seq(s@, true_chars()),
{
    if s.len() < 4 {
        return false;
    }
    let mut p: usize = 0;
    let limit = s.len() - 4;
    while p <= limit
        invariant
            limit == s@.len() - 4,
            s@.len() <= usize::MAX,
            p <= limit + 1,
            forall|q: int| 0 <= q < p ==> #[trigger] s@.subrange(q, q + 4) != true_chars(),
        decreases limit + 1 - p,
    {
        if s[p] == 't' && s[p + 1] == 'r' && s[p + 2] == 'u' && s[p + 3] == 'e' {
            proof {
                assert(s@.subrange(p as int, p + 4) =~= true_chars());
            }
            return true;
        }
        proof {
            assert(s@.subrange(p as int, p + 4)[0] == s@[p as int]);
            assert(s@.subrange(p as int, p + 4)[1] == s@[p + 1]);
            assert(s@.subrange(p as int, p + 4)[2] == s@[p + 2]);
            assert(s@.subrange(p as int, p + 4)[3] == s@[p + 3]);
            assert(s@.subrange(p as int, p + 4) != true_chars());
        }
        p += 1;
    }
    proof {
        assert forall|q: int| !(0 <= q && q + 4 <= s@.len() && #[trigger] s@.subrange(q, q + 4)
            == true_chars()) by {
            if 0 <= q && q + 4 <= s@.len() {
                assert(q < p);
            }
        }
    }
    false
}

/// Mathematical model of a typed actor definition.
#[verifier::ext_equal]
pub ghost struct DefinitionView {
    pub name: Seq<char>,
    pub public_visibility: bool,
    pub docs: Seq<char>,
    pub input: Seq<char>,
    pub input_derive: Seq<char>,
    pub data: Seq<char>,
    pub on_init: Seq<char>,
    pub on_message: Seq<char>,
    pub tick_interval: nat,
    pub on_tick: Seq<char>,
    pub on_stop: Seq<char>,
    pub spawner: Seq<char>,
    pub spawner_return_type: Seq<char>,
    pub custom_code: Seq<char>,
}

/// The definition a resolved mapping denotes, assuming its tick-interval
/// section is well formed.
pub open spec fn definition_of(m: MappingView) -> DefinitionView {
    DefinitionView {
        name: m.name,
        public_visibility: contains_seq(m.public_visibility, true_chars()),
        docs: m.docs,
        input: m.input,
        input_derive: m.input_derive,
        data: m.data,
        on_init: m.on_init,
        on_message: m.on_message,
        tick_interval: tick_value(m.tick_interval),
        on_tick: m.on_tick,
        on_stop: m.on_stop,
        spawner: m.spawner,
        spawner_return_type: m.spawner_return_type,
        custom_code: m.custom_code,
    }
}

/// A fully resolved actor definition: the generator's immutable input. The
/// state fields, message variants, hook bodies and spawn strategy are opaque
/// code fragments the core never interprets.
pub struct ActorDefinition {
    pub name: Vec<char>,
    pub public_visibility: bool,
    pub docs: Vec<char>,
    pub input: Vec<char>,
    pub input_derive: Vec<char>,
    pub data: Vec<char>,
    pub on_init: Vec<char>,
    pub on_message: Vec<char>,
    pub tick_interval: u64,
    pub on_tick: Vec<char>,
    pub on_stop: Vec<char>,
    pub spawner: Vec<char>,
    pub spawner_return_type: Vec<char>,
    pub custom_code: Vec<char>,
}

impl View for ActorDefinition {
    type V = DefinitionView;

    open spec fn view(&self) -> DefinitionView {
        DefinitionView {
            name: self.name@,
            public_visibility: self.public_visibility,
            docs: self.docs@,
            input: self.input@,
            input_derive: self.input_derive@,
            data: self.data@,
            on_init: self.on_init@,
            on_message: self.on_message@,
            tick_interval: self.tick_interval as nat,
            on_tick: self.on_tick@,
            on_stop: self.on_stop@,
            spawner: self.spawner@,
            spawner_return_type: self.spawner_return_type@,
            custom_code: self.custom_code@,
        }
    }
}

impl ActorDefinition {
    /// Types a resolved mapping: decodes the visibility flag and parses the
    /// tick interval, failing exactly when the tick-interval section is not a
    /// non-negative millisecond count.
    pub fn from_mapping(m: AttributeMapping) -> (r: Result<ActorDefinition, ParseError>)
        ensures
            r is Ok <==> tick_wf(m@.tick_interval),
            r matches Ok(d) ==> d@ == definition_of(m@),
            r matches Err(e) ==> e == ParseError::InvalidTickInterval,
    {
        let tick_interval = match parse_tick_interval(&m.tick_interval) {
            Some(v) => v,
            None => {
                return Err(ParseError::InvalidTickInterval);
            },
        };
        let public_visibility = contains_true(&m.public_visibility);
        let d = ActorDefinition {
            name: m.name,
            public_visibility,
            docs: m.docs,
            input: m.input,
            input_derive: m.input_derive,
            data: m.data,
            on_init: m.on_init,
            on_message: m.on_message,
            tick_interval,
            on_tick: m.on_tick,
            on_stop: m.on_stop,
            spawner: m.spawner,
            spawner_return_type: m.spawner_return_type,
            custom_code: m.custom_code,
        };
        proof {
            assert(d@ =~= definition_of(m@));
        }
        Ok(d)
    }
}

} // verus!
