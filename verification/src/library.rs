//! The per-movie symbol library: registered characters by ID, export
//! names, fonts by descriptor, optional JPEG tables, and the scripting
//! domain the movie runs under.

use crate::strutil::str_eq;
use vstd::prelude::*;

verus! {

/// The identifier a character is registered under.
pub type CharacterId = u16;

/// A bitmap symbol's dimensions.
#[derive(Clone, Copy, Debug, PartialEq, Eq, Structural)]
pub struct Bitmap {
    pub width: u16,
    pub height: u16,
}

/// A graphic symbol.
#[derive(Clone, Copy, Debug, PartialEq, Eq, Structural)]
pub struct Graphic {
    pub shape_id: u16,
}

/// A morph-shape symbol.
#[derive(Clone, Copy, Debug, PartialEq, Eq, Structural)]
pub struct MorphShape {
    pub shape_id: u16,
}

/// A static text symbol.
#[derive(Clone, Copy, Debug, PartialEq, Eq, Structural)]
pub struct Text {
    pub glyph_count: u16,
}

/// A handle into the audio backend.
pub type SoundHandle = u32;

/// The name and style a font is looked up by.
pub struct FontDescriptor {
    pub name: String,
    pub is_bold: bool,
    pub is_italic: bool,
}

/// A font symbol.
pub struct Font {
    pub descriptor: FontDescriptor,
}

/// The scripting domain a movie runs under.
#[derive(Clone, Copy, Debug, PartialEq, Eq, Structural)]
pub struct Avm2Domain {
    pub domain_id: u32,
}

/// A symbol registered in a movie's library.
pub enum Character {
    Bitmap(Bitmap),
    EditText,
    Graphic(Graphic),
    MorphShape(MorphShape),
    MovieClip,
    Avm1Button,
    Avm2Button,
    Text(Text),
    Video,
    Font(Font),
    Sound(SoundHandle),
}

/// The first registered character under an ID.
pub open spec fn char_find(cs: Seq<(CharacterId, Character)>, id: CharacterId) -> Option<
    Character,
>
    decreases cs.len(),
{
    if cs.len() == 0 {
        None
    } else if cs.first().0 == id {
        Some(cs.first().1)
    } else {
        char_find(cs.drop_first(), id)
    }
}

/// The first registered character ID under an export name, matched
/// without regard to ASCII case.
pub open spec fn export_find(es: Seq<(String, CharacterId)>, name: Seq<char>) -> Option<
    CharacterId,
>
    decreases es.len(),
{
    if es.len() == 0 {
        None
    } else if ci_equal(es.first().0@, name) {
        Some(es.first().1)
    } else {
        export_find(es.drop_first(), name)
    }
}

/// A character's code point with ASCII upper case folded to lower case.
pub open spec fn lower_code(c: char) -> int {
    if 'A' <= c && c <= 'Z' {
        c as u32 + 32
    } else {
        c as u32 as int
    }
}

/// Equality of names without regard to ASCII case.
pub open spec fn ci_equal(a: Seq<char>, b: Seq<char>) -> bool {
    a.len() == b.len() && forall|i: int| 0 <= i < a.len() ==> lower_code(#[trigger] a[i])
        == lower_code(b[i])
}

/// Whether a registered font matches a descriptor exactly.
pub open spec fn fd_matches(f: Font, name: Seq<char>, is_bold: bool, is_italic: bool) -> bool {
    f.descriptor.name@ == name && f.descriptor.is_bold == is_bold && f.descriptor.is_italic
        == is_italic
}

/// The first font matching a full descriptor.
pub open spec fn font_find(
    fs: Seq<Font>,
    name: Seq<char>,
    is_bold: bool,
    is_italic: bool,
) -> Option<int>
    decreases fs.len(),
{
    if fs.len() == 0 {
        None
    } else if fd_matches(fs.first(), name, is_bold, is_italic) {
        Some(0int)
    } else {
        match font_find(fs.drop_first(), name, is_bold, is_italic) {
            Some(i) => Some(i + 1),
            None => None,
        }
    }
}

/// The first font registered under a name, regardless of style.
pub open spec fn font_find_by_name(fs: Seq<Font>, name: Seq<char>) -> Option<int>
    decreases fs.len(),
{
    if fs.len() == 0 {
        None
    } else if fs.first().descriptor.name@ == name {
        Some(0int)
    } else {
        match font_find_by_name(fs.drop_first(), name) {
            Some(i) => Some(i + 1),
            None => None,
        }
    }
}

/// The export bindings after registering `name -> id`: the first binding
/// matching the name (without regard to ASCII case) is replaced, else the
/// new binding is appended.
pub open spec fn spec_register_export(
    es: Seq<(String, CharacterId)>,
    name: String,
    id: CharacterId,
) -> Seq<(String, CharacterId)>
    decreases es.len(),
{
    if es.len() == 0 {
        seq![(name, id)]
    } else if ci_equal(es.first().0@, name@) {
        seq![(name, id)] + es.drop_first()
    } else {
        seq![es.first()] + spec_register_export(es.drop_first(), name, id)
    }
}

proof fn lemma_register_export_found(
    es: Seq<(String, CharacterId)>,
    name: String,
    id: CharacterId,
    i: int,
)
    requires
        0 <= i < es.len(),
        ci_equal(es[i].0@, name@),
        forall|j: int| 0 <= j < i ==> !ci_equal((#[trigger] es[j]).0@, name@),
    ensures
        spec_register_export(es, name, id) =~= es.update(i, (name, id)),
    decreases i,
{
    if i > 0 {
        assert forall|j: int| 0 <= j < i - 1 implies !ci_equal(
            (#[trigger] es.drop_first()[j]).0@,
            name@,
        ) by {
            assert(es.drop_first()[j] == es[j + 1]);
        }
        assert(es.drop_first()[i - 1] == es[i]);
        lemma_register_export_found(es.drop_first(), name, id, i - 1);
        assert(spec_register_export(es, name, id) =~= es.update(i, (name, id)));
    }
}

proof fn lemma_register_export_missing(
    es: Seq<(String, CharacterId)>,
    name: String,
    id: CharacterId,
)
    requires
        forall|j: int| 0 <= j < es.len() ==> !ci_equal((#[trigger] es[j]).0@, name@),
    ensures
        spec_register_export(es, name, id) =~= es.push((name, id)),
    decreases es.len(),
{
    if es.len() > 0 {
        assert forall|j: int| 0 <= j < es.drop_first().len() implies !ci_equal(
            (#[trigger] es.drop_first()[j]).0@,
            name@,
        ) by {
            assert(es.drop_first()[j] == es[j + 1]);
        }
        lemma_register_export_missing(es.drop_first(), name, id);
        assert(spec_register_export(es, name, id) =~= es.push((name, id)));
    }
}

/// Symbol library for a single movie.
pub struct MovieLibrary {
    pub characters: Vec<(CharacterId, Character)>,
    pub export_characters: Vec<(String, CharacterId)>,
    pub fonts: Vec<Font>,
    pub jpeg_tables: Option<Vec<u8>>,
    pub avm2_domain: Option<Avm2Domain>,
}

impl MovieLibrary {
    /// An empty library.
    pub fn new() -> (r: MovieLibrary)
        ensures
            r.characters@ =~= Seq::<(CharacterId, Character)>::empty(),
            r.export_characters@ =~= Seq::<(String, CharacterId)>::empty(),
            r.fonts@ =~= Seq::<Font>::empty(),
            r.jpeg_tables is None,
            r.avm2_domain is None,
    {
        MovieLibrary {
            characters: Vec::new(),
            export_characters: Vec::new(),
            fonts: Vec::new(),
            jpeg_tables: None,
            avm2_domain: None,
        }
    }

    /// Registers a character under an ID.  A colliding ID leaves the
    /// library unchanged; the first font registered under a descriptor
    /// wins.
    pub fn register_character(&mut self, id: CharacterId, character: Character)
        ensures
            char_find(old(self).characters@, id) is Some ==> *final(self) == *old(self),
            char_find(old(self).characters@, id) is None ==> {
                &&& final(self).characters@ == old(self).characters@.push((id, character))
                &&& final(self).export_characters@ == old(self).export_characters@
                &&& final(self).jpeg_tables == old(self).jpeg_tables
                &&& final(self).avm2_domain == old(self).avm2_domain
                &&& (match character {
                    Character::Font(f) => if font_find(
                        old(self).fonts@,
                        f.descriptor.name@,
                        f.descriptor.is_bold,
                        f.descriptor.is_italic,
                    ) is None {
                        final(self).fonts@ == old(self).fonts@.push(f)
                    } else {
                        final(self).fonts@ == old(self).fonts@
                    },
                    _ => final(self).fonts@ == old(self).fonts@,
                })
            },
    {
        if self.contains_character(id) {
            return ;
        }
        let is_font = match &character {
            Character::Font(f) => true,
            _ => false,
        };
        if is_font {
            let (name, bold, italic) = match &character {
                Character::Font(f) => (
                    f.descriptor.name.clone(),
                    f.descriptor.is_bold,
                    f.descriptor.is_italic,
                ),
                _ => (String::new(), false, false),
            };
            if self.find_font(name.as_str(), bold, italic).is_none() {
                let f2 = match &character {
                    Character::Font(f) => Font {
                        descriptor: FontDescriptor {
                            name: f.descriptor.name.clone(),
                            is_bold: f.descriptor.is_bold,
                            is_italic: f.descriptor.is_italic,
                        },
                    },
                    _ => Font {
                        descriptor: FontDescriptor {
                            name: String::new(),
                            is_bold: false,
                            is_italic: false,
                        },
                    },
                };
                proof {
                    assert(match character {
                        Character::Font(f) => f2.descriptor.name@ == f.descriptor.name@
                            && f2.descriptor.is_bold == f.descriptor.is_bold
                            && f2.descriptor.is_italic == f.descriptor.is_italic,
                        _ => true,
                    });
                }
                self.fonts.push(f2);
            }
        }
        self.characters.push((id, character));
    }

    /// Registers an export name for a character ID, making it
    /// instantiable by name; an existing binding for the name (compared
    /// without regard to ASCII case) is replaced.
    pub fn register_export(&mut self, id: CharacterId, export_name: String)
        ensures
            final(self).characters@ == old(self).characters@,
            final(self).fonts@ == old(self).fonts@,
            final(self).jpeg_tables == old(self).jpeg_tables,
            final(self).avm2_domain == old(self).avm2_domain,
            final(self).export_characters@ == spec_register_export(
                old(self).export_characters@,
                export_name,
                id,
            ),
            export_find(final(self).export_characters@, export_name@) == Some(id),
    {
        let n = self.export_characters.len();
        let ghost before = self.export_characters@;
        let mut i: usize = 0;
        while i < n
            invariant
                0 <= i <= n,
                self.export_characters@ == before,
                before == old(self).export_characters@,
                n == before.len(),
                *self == *old(self),
                forall|j: int| 0 <= j < i ==> !ci_equal((#[trigger] before[j]).0@, export_name@),
            decreases n - i,
        {
            if ci_eq_exec(self.export_characters[i].0.as_str(), export_name.as_str()) {
                let _ = self.export_characters.remove(i);
                self.export_characters.insert(i, (export_name, id));
                proof {
                    assert(self.export_characters@ =~= before.update(
                        i as int,
                        self.export_characters@[i as int],
                    ));
                    lemma_register_export_found(before, export_name, id, i as int);
                    lemma_export_find_found(self.export_characters@, export_name@, i as int);
                }
                return ;
            }
            i = i + 1;
        }
        self.export_characters.push((export_name, id));
        proof {
            lemma_register_export_missing(before, export_name, id);
            assert(self.export_characters@ =~= before.push((export_name, id)));
            lemma_export_find_found(
                self.export_characters@,
                export_name@,
                before.len() as int,
            );
        }
    }

    /// The registered characters.
    pub fn characters(&self) -> (r: &Vec<(CharacterId, Character)>)
        ensures
            r == &self.characters,
    {
        &self.characters
    }

    /// The registered export-name bindings.
    pub fn export_characters(&self) -> (r: &Vec<(String, CharacterId)>)
        ensures
            r == &self.export_characters,
    {
        &self.export_characters
    }

    /// Whether a character is registered under the ID.
    pub fn contains_character(&self, id: CharacterId) -> (r: bool)
        ensures
            r == (char_find(self.characters@, id) is Some),
    {
        let n = self.characters.len();
        let mut i: usize = 0;
        proof {
            assert(self.characters@.skip(0) =~= self.characters@);
        }
        while i < n
            invariant
                0 <= i <= n,
                n == self.characters@.len(),
                char_find(self.characters@, id) == char_find(
                    self.characters@.skip(i as int),
                    id,
                ),
            decreases n - i,
        {
            proof {
                assert(self.characters@.skip(i as int).first() == self.characters@[i as int]);
                assert(self.characters@.skip(i as int).drop_first() =~= self.characters@.skip(
                    i as int + 1,
                ));
            }
            if self.characters[i].0 == id {
                return true;
            }
            i = i + 1;
        }
        proof {
            assert(self.characters@.skip(n as int) =~= Seq::empty());
        }
        false
    }

    /// The character registered under the ID, if any.
    pub fn character_by_id(&self, id: CharacterId) -> (r: Option<&Character>)
        ensures
            match r {
                Some(c) => char_find(self.characters@, id) == Some(*c),
                None => char_find(self.characters@, id) is None,
            },
    {
        let n = self.characters.len();
        let mut i: usize = 0;
        proof {
            assert(self.characters@.skip(0) =~= self.characters@);
        }
        while i < n
            invariant
                0 <= i <= n,
                n == self.characters@.len(),
                char_find(self.characters@, id) == char_find(
                    self.characters@.skip(i as int),
                    id,
                ),
            decreases n - i,
        {
            proof {
                assert(self.characters@.skip(i as int).first() == self.characters@[i as int]);
                assert(self.characters@.skip(i as int).drop_first() =~= self.characters@.skip(
                    i as int + 1,
                ));
            }
            if self.characters[i].0 == id {
                return Some(&self.characters[i].1);
            }
            i = i + 1;
        }
        proof {
            assert(self.characters@.skip(n as int) =~= Seq::empty());
        }
        None
    }

    /// The character registered under an export name (matched without
    /// regard to ASCII case), if any.
    pub fn character_by_export_name(&self, name: &str) -> (r: Option<&Character>)
        ensures
            match export_find(self.export_characters@, name@) {
                Some(id) => match r {
                    Some(c) => char_find(self.characters@, id) == Some(*c),
                    None => char_find(self.characters@, id) is None,
                },
                None => r is None,
            },
    {
        let n = self.export_characters.len();
        let mut i: usize = 0;
        proof {
            assert(self.export_characters@.skip(0) =~= self.export_characters@);
        }
        while i < n
            invariant
                0 <= i <= n,
                n == self.export_characters@.len(),
                export_find(self.export_characters@, name@) == export_find(
                    self.export_characters@.skip(i as int),
                    name@,
                ),
            decreases n - i,
        {
            proof {
                assert(self.export_characters@.skip(i as int).first() == self.export_characters@[
                    i as int
                ]);
                assert(self.export_characters@.skip(i as int).drop_first()
                    =~= self.export_characters@.skip(i as int + 1));
            }
            if ci_eq_exec(self.export_characters[i].0.as_str(), name) {
                let id = self.export_characters[i].1;
                return self.character_by_id(id);
            }
            i = i + 1;
        }
        proof {
            assert(self.export_characters@.skip(n as int) =~= Seq::empty());
        }
        None
    }

    /// The bitmap registered under the ID, if the ID names a bitmap.
    pub fn get_bitmap(&self, id: CharacterId) -> (r: Option<Bitmap>)
        ensures
            r == (match char_find(self.characters@, id) {
                Some(Character::Bitmap(b)) => Some(b),
                _ => None::<Bitmap>,
            }),
    {
        match self.character_by_id(id) {
            Some(c) => match c {
                Character::Bitmap(b) => Some(*b),
                _ => None,
            },
            None => None,
        }
    }

    /// The graphic registered under the ID, if the ID names a graphic.
    pub fn get_graphic(&self, id: CharacterId) -> (r: Option<Graphic>)
        ensures
            r == (match char_find(self.characters@, id) {
                Some(Character::Graphic(g)) => Some(g),
                _ => None::<Graphic>,
            }),
    {
        match self.character_by_id(id) {
            Some(c) => match c {
                Character::Graphic(g) => Some(*g),
                _ => None,
            },
            None => None,
        }
    }

    /// The morph shape registered under the ID, if the ID names one.
    pub fn get_morph_shape(&self, id: CharacterId) -> (r: Option<MorphShape>)
        ensures
            r == (match char_find(self.characters@, id) {
                Some(Character::MorphShape(m)) => Some(m),
                _ => None::<MorphShape>,
            }),
    {
        match self.character_by_id(id) {
            Some(c) => match c {
                Character::MorphShape(m) => Some(*m),
                _ => None,
            },
            None => None,
        }
    }

    /// The sound registered under the ID, if the ID names a sound.
    pub fn get_sound(&self, id: CharacterId) -> (r: Option<SoundHandle>)
        ensures
            r == (match char_find(self.characters@, id) {
                Some(Character::Sound(s)) => Some(s),
                _ => None::<SoundHandle>,
            }),
    {
        match self.character_by_id(id) {
            Some(c) => match c {
                Character::Sound(s) => Some(*s),
                _ => None,
            },
            None => None,
        }
    }

    /// The static text registered under the ID, if the ID names one.
    pub fn get_text(&self, id: CharacterId) -> (r: Option<Text>)
        ensures
            r == (match char_find(self.characters@, id) {
                Some(Character::Text(t)) => Some(t),
                _ => None::<Text>,
            }),
    {
        match self.character_by_id(id) {
            Some(c) => match c {
                Character::Text(t) => Some(*t),
                _ => None,
            },
            None => None,
        }
    }

    /// The font registered under the ID, if the ID names a font.
    pub fn get_font(&self, id: CharacterId) -> (r: Option<&Font>)
        ensures
            match r {
                Some(f) => char_find(self.characters@, id) == Some(Character::Font(*f)),
                None => !(char_find(self.characters@, id) matches Some(Character::Font(f))),
            },
    {
        match self.character_by_id(id) {
            Some(c) => match c {
                Character::Font(f) => Some(f),
                _ => None,
            },
            None => None,
        }
    }

    /// The first font matching the full descriptor, if any.
    fn find_font(&self, name: &str, is_bold: bool, is_italic: bool) -> (r: Option<usize>)
        ensures
            match r {
                Some(i) => i < self.fonts@.len() && font_find(self.fonts@, name@, is_bold,
                    is_italic) == Some(i as int),
                None => font_find(self.fonts@, name@, is_bold, is_italic) is None,
            },
    {
        let n = self.fonts.len();
        let mut i: usize = 0;
        while i < n
            invariant
                0 <= i <= n,
                n == self.fonts@.len(),
                forall|j: int|
                    0 <= j < i ==> !fd_matches(
                        #[trigger] self.fonts@[j],
                        name@,
                        is_bold,
                        is_italic,
                    ),
        decreases n - i,
        {
            let f = &self.fonts[i];
            if str_eq(f.descriptor.name.as_str(), name) && f.descriptor.is_bold == is_bold
                && f.descriptor.is_italic == is_italic {
                proof {
                    lemma_font_find_found(self.fonts@, name@, is_bold, is_italic, i as int);
                }
                return Some(i);
            }
            i = i + 1;
        }
        proof {
            lemma_font_find_missing(self.fonts@, name@, is_bold, is_italic);
        }
        None
    }

    /// Finds a font by name and style: an exact descriptor match wins,
    /// else the first font with the same name.
    pub fn get_font_by_name(&self, name: &str, is_bold: bool, is_italic: bool) -> (r: Option<
        &Font,
    >)
        ensures
            match font_find(self.fonts@, name@, is_bold, is_italic) {
                Some(i) => r matches Some(f) && *f == self.fonts@[i],
                None => match font_find_by_name(self.fonts@, name@) {
                    Some(i) => r matches Some(f) && *f == self.fonts@[i],
                    None => r is None,
                },
            },
    {
        match self.find_font(name, is_bold, is_italic) {
            Some(i) => Some(&self.fonts[i]),
            None => {
                let n = self.fonts.len();
                let mut i: usize = 0;
                while i < n
                    invariant
                        0 <= i <= n,
                        n == self.fonts@.len(),
                        font_find(self.fonts@, name@, is_bold, is_italic) is None,
                        forall|j: int|
                            0 <= j < i ==> (#[trigger] self.fonts@[j]).descriptor.name@ != name@,
                    decreases n - i,
                {
                    if str_eq(self.fonts[i].descriptor.name.as_str(), name) {
                        proof {
                            lemma_font_by_name_found(self.fonts@, name@, i as int);
                        }
                        return Some(&self.fonts[i]);
                    }
                    i = i + 1;
                }
                proof {
                    lemma_font_by_name_missing(self.fonts@, name@);
                }
                None
            },
        }
    }

    /// The movie's JPEG tables, when it has any.
    pub fn jpeg_tables(&self) -> (r: Option<&Vec<u8>>)
        ensures
            match r {
                Some(t) => self.jpeg_tables == Some(*t),
                None => self.jpeg_tables is None,
            },
    {
        match &self.jpeg_tables {
            Some(t) => Some(t),
            None => None,
        }
    }

    /// Sets the scripting domain the movie runs under.
    pub fn set_avm2_domain(&mut self, avm2_domain: Avm2Domain)
        ensures
            final(self).avm2_domain == Some(avm2_domain),
            final(self).characters@ == old(self).characters@,
            final(self).export_characters@ == old(self).export_characters@,
            final(self).fonts@ == old(self).fonts@,
            final(self).jpeg_tables == old(self).jpeg_tables,
    {
        self.avm2_domain = Some(avm2_domain);
    }

    /// The scripting domain the movie runs under; only meaningful once
    /// one has been set.
    pub fn avm2_domain(&self) -> (r: Avm2Domain)
        requires
            self.avm2_domain is Some,
        ensures
            Some(r) == self.avm2_domain,
    {
        match self.avm2_domain {
            Some(d) => d,
            None => Avm2Domain { domain_id: 0 },
        }
    }

    /// The scripting domain, when one has been set.
    pub fn try_avm2_domain(&self) -> (r: Option<Avm2Domain>)
        ensures
            r == self.avm2_domain,
    {
        self.avm2_domain
    }
}

/// Equality of names without regard to ASCII case.
pub fn ci_eq_exec(a: &str, b: &str) -> (r: bool)
    ensures
        r == ci_equal(a@, b@),
{
    let an = a.unicode_len();
    let bn = b.unicode_len();
    if an != bn {
        return false;
    }
    let mut i: usize = 0;
    while i < an
        invariant
            0 <= i <= an,
            an == a@.len(),
            bn == b@.len(),
            an == bn,
            forall|j: int| 0 <= j < i ==> lower_code(#[trigger] a@[j]) == lower_code(b@[j]),
        decreases an - i,
    {
        let ca = a.get_char(i);
        let cb = b.get_char(i);
        let la: u32 = if 'A' <= ca && ca <= 'Z' {
            ca as u32 + 32
        } else {
            ca as u32
        };
        let lb: u32 = if 'A' <= cb && cb <= 'Z' {
            cb as u32 + 32
        } else {
            cb as u32
        };
        if la != lb {
            return false;
        }
        i = i + 1;
    }
    true
}

proof fn lemma_export_find_found(es: Seq<(String, CharacterId)>, name: Seq<char>, i: int)
    requires
        0 <= i < es.len(),
        ci_equal(es[i].0@, name),
        forall|j: int| 0 <= j < i ==> !ci_equal((#[trigger] es[j]).0@, name),
    ensures
        export_find(es, name) == Some(es[i].1),
    decreases i,
{
    if i > 0 {
        assert forall|j: int| 0 <= j < i - 1 implies !ci_equal(
            (#[trigger] es.drop_first()[j]).0@,
            name,
        ) by {
            assert(es.drop_first()[j] == es[j + 1]);
        }
        assert(es.drop_first()[i - 1] == es[i]);
        lemma_export_find_found(es.drop_first(), name, i - 1);
    }
}

proof fn lemma_font_find_found(
    fs: Seq<Font>,
    name: Seq<char>,
    is_bold: bool,
    is_italic: bool,
    i: int,
)
    requires
        0 <= i < fs.len(),
        fd_matches(fs[i], name, is_bold, is_italic),
        forall|j: int| 0 <= j < i ==> !fd_matches(#[trigger] fs[j], name, is_bold, is_italic),
    ensures
        font_find(fs, name, is_bold, is_italic) == Some(i),
    decreases i,
{
    if i > 0 {
        assert forall|j: int| 0 <= j < i - 1 implies !fd_matches(
            #[trigger] fs.drop_first()[j],
            name,
            is_bold,
            is_italic,
        ) by {
            assert(fs.drop_first()[j] == fs[j + 1]);
        }
        assert(fs.drop_first()[i - 1] == fs[i]);
        lemma_font_find_found(fs.drop_first(), name, is_bold, is_italic, i - 1);
    }
}

proof fn lemma_font_find_missing(fs: Seq<Font>, name: Seq<char>, is_bold: bool, is_italic: bool)
    requires
        forall|j: int|
            0 <= j < fs.len() ==> !fd_matches(#[trigger] fs[j], name, is_bold, is_italic),
    ensures
        font_find(fs, name, is_bold, is_italic) is None,
    decreases fs.len(),
{
    if fs.len() > 0 {
        assert forall|j: int| 0 <= j < fs.drop_first().len() implies !fd_matches(
            #[trigger] fs.drop_first()[j],
            name,
            is_bold,
            is_italic,
        ) by {
            assert(fs.drop_first()[j] == fs[j + 1]);
        }
        lemma_font_find_missing(fs.drop_first(), name, is_bold, is_italic);
    }
}

proof fn lemma_font_by_name_found(fs: Seq<Font>, name: Seq<char>, i: int)
    requires
        0 <= i < fs.len(),
        fs[i].descriptor.name@ == name,
        forall|j: int| 0 <= j < i ==> (#[trigger] fs[j]).descriptor.name@ != name,
    ensures
        font_find_by_name(fs, name) == Some(i),
    decreases i,
{
    if i > 0 {
        assert forall|j: int| 0 <= j < i - 1 implies (
        #[trigger] fs.drop_first()[j]).descriptor.name@ != name by {
            assert(fs.drop_first()[j] == fs[j + 1]);
        }
        assert(fs.drop_first()[i - 1] == fs[i]);
        lemma_font_by_name_found(fs.drop_first(), name, i - 1);
    }
}

proof fn lemma_font_by_name_missing(fs: Seq<Font>, name: Seq<char>)
    requires
        forall|j: int| 0 <= j < fs.len() ==> (#[trigger] fs[j]).descriptor.name@ != name,
    ensures
        font_find_by_name(fs, name) is None,
    decreases fs.len(),
{
    if fs.len() > 0 {
        assert forall|j: int| 0 <= j < fs.drop_first().len() implies (
        #[trigger] fs.drop_first()[j]).descriptor.name@ != name by {
            assert(fs.drop_first()[j] == fs[j + 1]);
        }
        lemma_font_by_name_missing(fs.drop_first(), name);
    }
}

} // verus!
