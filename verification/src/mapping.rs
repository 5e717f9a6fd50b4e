//! The resolved attribute mapping: one content string per section keyword,
//! plus the positional actor name.

use vstd::prelude::*;

use crate::keywords::Keyword;
use crate::keywords::default_chars;

verus! {

/// Mathematical model of an attribute mapping: the actor name and the content
/// of every keyword section, defaults already filled in.
#[verifier::ext_equal]
pub ghost struct MappingView {
    pub name: Seq<char>,
    pub public_visibility: Seq<char>,
    pub docs: Seq<char>,
    pub input: Seq<char>,
    pub input_derive: Seq<char>,
    pub data: Seq<char>,
    pub on_init: Seq<char>,
    pub on_message: Seq<char>,
    pub tick_interval: Seq<char>,
    pub on_tick: Seq<char>,
    pub on_stop: Seq<char>,
    pub spawner: Seq<char>,
    pub spawner_return_type: Seq<char>,
    pub custom_code: Seq<char>,
}

impl MappingView {
    /// The content the mapping assigns to a keyword.
    pub open spec fn sect(self, k: Keyword) -> Seq<char> {
        match k {
            Keyword::PublicVisibility => self.public_visibility,
            Keyword::Docs => self.docs,
            Keyword::Input => self.input,
            Keyword::InputDerive => self.input_derive,
            Keyword::Data => self.data,
            Keyword::OnInit => self.on_init,
            Keyword::OnMessage => self.on_message,
            Keyword::TickInterval => self.tick_interval,
            Keyword::OnTick => self.on_tick,
            Keyword::OnStop => self.on_stop,
            Keyword::Spawner => self.spawner,
            Keyword::SpawnerReturnType => self.spawner_return_type,
            Keyword::CustomCode => self.custom_code,
        }
    }

    /// A keyword section is non-default when its content differs from the
    /// keyword's documented default.
    pub open spec fn is_default(self, k: Keyword) -> bool {
        self.sect(k) == default_chars(k)
    }

    /// Two mappings agreeing on the name and on every keyword are equal.
    pub proof fn lemma_sect_ext(self, other: MappingView)
        requires
            self.name == other.name,
            forall|k: Keyword| self.sect(k) == other.sect(k),
        ensures
            self == other,
    {
        assert(self.sect(Keyword::PublicVisibility) == other.sect(Keyword::PublicVisibility));
        assert(self.sect(Keyword::Docs) == other.sect(Keyword::Docs));
        assert(self.sect(Keyword::Input) == other.sect(Keyword::Input));
        assert(self.sect(Keyword::InputDerive) == other.sect(Keyword::InputDerive));
        assert(self.sect(Keyword::Data) == other.sect(Keyword::Data));
        assert(self.sect(Keyword::OnInit) == other.sect(Keyword::OnInit));
        assert(self.sect(Keyword::OnMessage) == other.sect(Keyword::OnMessage));
        assert(self.sect(Keyword::TickInterval) == other.sect(Keyword::TickInterval));
        assert(self.sect(Keyword::OnTick) == other.sect(Keyword::OnTick));
        assert(self.sect(Keyword::OnStop) == other.sect(Keyword::OnStop));
        assert(self.sect(Keyword::Spawner) == other.sect(Keyword::Spawner));
        assert(self.sect(Keyword::SpawnerReturnType) == other.sect(Keyword::SpawnerReturnType));
        assert(self.sect(Keyword::CustomCode) == other.sect(Keyword::CustomCode));
        assert(self =~= other);
    }
}

/// The resolved attribute mapping of one actor specification.
pub struct AttributeMapping {
    pub name: Vec<char>,
    pub public_visibility: Vec<char>,
    pub docs: Vec<char>,
    pub input: Vec<char>,
    pub input_derive: Vec<char>,
    pub data: Vec<char>,
    pub on_init: Vec<char>,
    pub on_message: Vec<char>,
    pub tick_interval: Vec<char>,
    pub on_tick: Vec<char>,
    pub on_stop: Vec<char>,
    pub spawner: Vec<char>,
    pub spawner_return_type: Vec<char>,
    pub custom_code: Vec<char>,
}

impl View for AttributeMapping {
    type V = MappingView;

    open spec fn view(&self) -> MappingView {
        MappingView {
            name: self.name@,
            public_visibility: self.public_visibility@,
            docs: self.docs@,
            input: self.input@,
            input_derive: self.input_derive@,
            data: self.data@,
            on_init: self.on_init@,
            on_message: self.on_message@,
            tick_interval: self.tick_interval@,
            on_tick: self.on_tick@,
            on_stop: self.on_stop@,
            spawner: self.spawner@,
            spawner_return_type: self.spawner_return_type@,
            custom_code: self.custom_code@,
        }
    }
}

impl AttributeMapping {
    /// Executable access to the content of a keyword section.
    pub fn section(&self, k: Keyword) -> (r: &Vec<char>)
        ensures
            r@ == self@.sect(k),
    {
        match k {
            Keyword::PublicVisibility => &self.public_visibility,
            Keyword::Docs => &self.docs,
            Keyword::Input => &self.input,
            Keyword::InputDerive => &self.input_derive,
            Keyword::Data => &self.data,
            Keyword::OnInit => &self.on_init,
            Keyword::OnMessage => &self.on_message,
            Keyword::TickInterval => &self.tick_interval,
            Keyword::OnTick => &self.on_tick,
            Keyword::OnStop => &self.on_stop,
            Keyword::Spawner => &self.spawner,
            Keyword::SpawnerReturnType => &self.spawner_return_type,
            Keyword::CustomCode => &self.custom_code,
        }
    }
}

} // verus!
