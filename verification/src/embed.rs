//! The content of Discord embeds, built by the commands and shown by the
//! bot: title, description, colour, thumbnail, fields and footer.

use vstd::prelude::*;

verus! {

/// A field of an embed.
#[derive(Debug)]
pub struct EmbedField {
    pub name: String,
    pub value: String,
    pub inline: bool,
}

/// An embed's content.
#[derive(Debug)]
pub struct Embed {
    pub title: String,
    pub description: Option<String>,
    /// Colour as 0xRRGGBB.
    pub colour: u32,
    pub thumbnail: Option<String>,
    pub fields: Vec<EmbedField>,
    pub footer: Option<String>,
}

/// The text of a field.
pub struct FieldText {
    pub name: Seq<char>,
    pub value: Seq<char>,
    pub inline: bool,
}

/// The text of an embed.
pub struct EmbedText {
    pub title: Seq<char>,
    pub description: Option<Seq<char>>,
    pub colour: u32,
    pub thumbnail: Option<Seq<char>>,
    pub fields: Seq<FieldText>,
    pub footer: Option<Seq<char>>,
}

/// The text of an optional string.
pub open spec fn opt_text(s: Option<String>) -> Option<Seq<char>> {
    match s {
        Some(t) => Some(t@),
        None => None,
    }
}

impl View for EmbedField {
    type V = FieldText;

    open spec fn view(&self) -> FieldText {
        FieldText { name: self.name@, value: self.value@, inline: self.inline }
    }
}

impl View for Embed {
    type V = EmbedText;

    open spec fn view(&self) -> EmbedText {
        EmbedText {
            title: self.title@,
            description: opt_text(self.description),
            colour: self.colour,
            thumbnail: opt_text(self.thumbnail),
            fields: Seq::new(self.fields@.len(), |i: int| self.fields@[i]@),
            footer: opt_text(self.footer),
        }
    }
}

/// An embed with a title and a colour and nothing else.
pub open spec fn bare_embed(title: Seq<char>, colour: u32) -> EmbedText {
    EmbedText {
        title,
        description: None,
        colour,
        thumbnail: None,
        fields: Seq::empty(),
        footer: None,
    }
}

/// A field text.
pub open spec fn field_text(name: Seq<char>, value: Seq<char>, inline: bool) -> FieldText {
    FieldText { name, value, inline }
}

/// `e` with one more field at the end.
pub open spec fn with_field(e: EmbedText, f: FieldText) -> EmbedText {
    EmbedText { fields: e.fields.push(f), ..e }
}

impl Embed {
    /// An embed with a title and a colour.
    pub fn new(title: String, colour: u32) -> (e: Embed)
        ensures
            e@ == bare_embed(title@, colour),
    {
        let e = Embed {
            title,
            description: None,
            colour,
            thumbnail: None,
            fields: Vec::new(),
            footer: None,
        };
        assert(e@.fields =~= Seq::<FieldText>::empty());
        e
    }

    /// Adds a field at the end.
    pub fn add_field(&mut self, name: String, value: String, inline: bool)
        ensures
            final(self)@ == with_field(old(self)@, field_text(name@, value@, inline)),
    {
        let ghost before = self@;
        self.fields.push(EmbedField { name, value, inline });
        assert(self@.fields =~= before.fields.push(field_text(name@, value@, inline)));
    }

    /// Sets the description.
    pub fn set_description(&mut self, text: String)
        ensures
            final(self)@ == (EmbedText { description: Some(text@), ..old(self)@ }),
    {
        let ghost before = self@;
        self.description = Some(text);
        assert(self@.fields =~= before.fields);
    }

    /// Sets the thumbnail URL.
    pub fn set_thumbnail(&mut self, url: String)
        ensures
            final(self)@ == (EmbedText { thumbnail: Some(url@), ..old(self)@ }),
    {
        let ghost before = self@;
        self.thumbnail = Some(url);
        assert(self@.fields =~= before.fields);
    }

    /// Sets the footer text.
    pub fn set_footer(&mut self, text: String)
        ensures
            final(self)@ == (EmbedText { footer: Some(text@), ..old(self)@ }),
    {
        let ghost before = self@;
        self.footer = Some(text);
        assert(self@.fields =~= before.fields);
    }
}

} // verus!
