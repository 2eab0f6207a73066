//! Field configuration and terms, as far as the postings writer reads them.

use vstd::prelude::*;
use vstd::string::StringSliceAdditionalSpecFns;

verus! {

/// A document identifier.
pub type DocId = u32;

/// A field of the schema, by its position in it.
#[derive(Clone, Copy, Debug, PartialEq, Eq, Structural)]
pub struct Field(pub u8);

/// Which postings features are recorded for the terms of a field.
#[derive(Clone, Copy, Debug, PartialEq, Eq, Structural)]
pub enum TextIndexingOptions {
    /// The field is not indexed.
    Unindexed,
    /// The field is indexed as a single token.
    Untokenized,
    /// Tokenized; only the documents are recorded.
    TokenizedNoFreq,
    /// Tokenized; documents and term frequencies are recorded.
    TokenizedWithFreq,
    /// Tokenized; documents, term frequencies and positions are recorded.
    TokenizedWithFreqAndPosition,
}

impl TextIndexingOptions {
    /// Term frequencies are recorded exactly for the two `...WithFreq...` options.
    pub open spec fn termfreq_enabled(self) -> bool {
        self is TokenizedWithFreq || self is TokenizedWithFreqAndPosition
    }

    /// Positions are recorded only for `TokenizedWithFreqAndPosition`.
    pub open spec fn position_enabled(self) -> bool {
        self is TokenizedWithFreqAndPosition
    }

    pub fn is_termfreq_enabled(&self) -> (enabled: bool)
        ensures
            enabled == self.termfreq_enabled(),
    {
        match *self {
            TextIndexingOptions::TokenizedWithFreq
            | TextIndexingOptions::TokenizedWithFreqAndPosition => true,
            _ => false,
        }
    }

    pub fn is_position_enabled(&self) -> (enabled: bool)
        ensures
            enabled == self.position_enabled(),
    {
        match *self {
            TextIndexingOptions::TokenizedWithFreqAndPosition => true,
            _ => false,
        }
    }
}

/// Configuration of a text field.
#[derive(Clone, Copy, Debug, PartialEq, Eq, Structural)]
pub struct TextOptions {
    pub indexing: TextIndexingOptions,
    pub stored: bool,
}

impl TextOptions {
    pub fn get_indexing_options(&self) -> (options: TextIndexingOptions)
        ensures
            options == self.indexing,
    {
        self.indexing
    }
}

/// Configuration of an unsigned 32-bit integer field.
#[derive(Clone, Copy, Debug, PartialEq, Eq, Structural)]
pub struct U32Options {
    pub indexed: bool,
    pub fast: bool,
    pub stored: bool,
}

impl U32Options {
    pub fn is_indexed(&self) -> (indexed: bool)
        ensures
            indexed == self.indexed,
    {
        self.indexed
    }
}

/// The type of a field, with the configuration that belongs to it.
#[derive(Clone, Copy, Debug, PartialEq, Eq, Structural)]
pub enum FieldType {
    Str(TextOptions),
    U32(U32Options),
}

impl FieldType {
    /// The postings features of a field of this type. A text field says so
    /// itself. An integer field never records frequencies or positions,
    /// whether it is indexed or not.
    pub open spec fn indexing_options(self) -> TextIndexingOptions {
        match self {
            FieldType::Str(text_options) => text_options.indexing,
            FieldType::U32(u32_options) => if u32_options.indexed {
                TextIndexingOptions::Unindexed
            } else {
                TextIndexingOptions::Untokenized
            },
        }
    }
}

/// A named field with its type.
#[derive(Clone, Debug)]
pub struct FieldEntry {
    pub name: String,
    pub field_type: FieldType,
}

impl FieldEntry {
    pub fn new_text(name: String, options: TextOptions) -> (entry: FieldEntry)
        ensures
            entry.name == name,
            entry.field_type == FieldType::Str(options),
    {
        FieldEntry { name, field_type: FieldType::Str(options) }
    }

    pub fn new_u32(name: String, options: U32Options) -> (entry: FieldEntry)
        ensures
            entry.name == name,
            entry.field_type == FieldType::U32(options),
    {
        FieldEntry { name, field_type: FieldType::U32(options) }
    }

    pub fn field_type(&self) -> (field_type: &FieldType)
        ensures
            *field_type == self.field_type,
    {
        &self.field_type
    }
}

/// The fields of an index, in the order in which they were added.
#[derive(Clone, Debug)]
pub struct Schema {
    fields: Vec<FieldEntry>,
}

impl View for Schema {
    type V = Seq<FieldEntry>;

    closed spec fn view(&self) -> Seq<FieldEntry> {
        self.fields@
    }
}

impl Schema {
    /// `field` names an entry of this schema.
    pub open spec fn has_field(&self, field: Field) -> bool {
        (field.0 as int) < self@.len()
    }

    /// The postings features that the schema gives to `field`.
    pub open spec fn indexing_options(&self, field: Field) -> TextIndexingOptions {
        self@[field.0 as int].field_type.indexing_options()
    }

    pub fn new() -> (schema: Schema)
        ensures
            schema@.len() == 0,
    {
        Schema { fields: Vec::new() }
    }

    /// Adds a field and returns its handle. A schema holds at most 256
    /// fields; one more is refused and the schema is left as it was.
    pub fn add_field(&mut self, entry: FieldEntry) -> (field: Option<Field>)
        ensures
            old(self)@.len() < 256 ==> field == Some(Field(old(self)@.len() as u8)) && final(self)@
                == old(self)@.push(entry),
            old(self)@.len() >= 256 ==> field is None && final(self)@ == old(self)@,
    {
        let count: usize = self.fields.len();
        if count < 256 {
            self.fields.push(entry);
            Some(Field(count as u8))
        } else {
            None
        }
    }

    pub fn num_fields(&self) -> (count: usize)
        ensures
            count == self@.len(),
    {
        self.fields.len()
    }

    pub fn get_field_entry(&self, field: Field) -> (entry: &FieldEntry)
        requires
            self.has_field(field),
        ensures
            *entry == self@[field.0 as int],
    {
        &self.fields[field.0 as usize]
    }
}

/// A term: the field it belongs to and the bytes of its value.
///
/// Its dictionary key is one byte for the field followed by the value, so
/// that the terms of one field are adjacent in the dictionary.
pub struct Term {
    data: Vec<u8>,
}

impl View for Term {
    type V = Seq<u8>;

    /// The dictionary key of the term.
    closed spec fn view(&self) -> Seq<u8> {
        self.data@
    }
}

/// The four bytes of `value`, most significant first.
pub open spec fn be_bytes(value: u32) -> Seq<u8> {
    seq![
        (value / 0x100_0000) as u8,
        ((value / 0x1_0000) % 0x100) as u8,
        ((value / 0x100) % 0x100) as u8,
        (value % 0x100) as u8,
    ]
}

impl Term {
    #[verifier::type_invariant]
    spec fn has_field_byte(self) -> bool {
        self.data@.len() >= 1
    }

    /// The field of the term, read from its key.
    pub open spec fn spec_field(&self) -> Field {
        Field(self@[0])
    }

    /// The term of `field` whose value is `value`.
    pub fn from_field_bytes(field: Field, value: &[u8]) -> (term: Term)
        ensures
            term@ == seq![field.0] + value@,
    {
        let mut data: Vec<u8> = Vec::with_capacity(1);
        data.push(field.0);
        let mut i: usize = 0;
        while i < value.len()
            invariant
                i <= value.len(),
                data@ == seq![field.0] + value@.take(i as int),
            decreases value.len() - i,
        {
            data.push(value[i]);
            assert(data@ =~= seq![field.0] + value@.take(i + 1));
            i = i + 1;
        }
        assert(value@.take(i as int) =~= value@);
        Term { data }
    }

    /// The term of `field` whose value is the UTF-8 encoding of `text`.
    pub fn from_field_text(field: Field, text: &str) -> (term: Term)
        ensures
            term@ == seq![field.0] + text.spec_bytes(),
    {
        Term::from_field_bytes(field, text.as_bytes())
    }

    /// The term of `field` whose value is `value`, most significant byte
    /// first, so that the keys are ordered as the numbers are.
    pub fn from_field_u32(field: Field, value: u32) -> (term: Term)
        ensures
            term@ == seq![field.0] + be_bytes(value),
    {
        let mut data: Vec<u8> = Vec::with_capacity(5);
        data.push(field.0);
        data.push((value / 0x100_0000) as u8);
        data.push(((value / 0x1_0000) % 0x100) as u8);
        data.push(((value / 0x100) % 0x100) as u8);
        data.push((value % 0x100) as u8);
        assert(data@ =~= seq![field.0] + be_bytes(value));
        Term { data }
    }

    #[verifier::when_used_as_spec(spec_field)]
    pub fn field(&self) -> (field: Field)
        ensures
            field == self.spec_field(),
    {
        proof {
            use_type_invariant(self);
        }
        Field(self.data[0])
    }

    /// The dictionary key of the term.
    pub fn as_slice(&self) -> (key: &[u8])
        ensures
            key@ == self@,
            key@.len() >= 1,
    {
        proof {
            use_type_invariant(self);
        }
        self.data.as_slice()
    }
}

} // verus!
