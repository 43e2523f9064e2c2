//! Project-property values and the bag scene bindings resolve against.
//!
//! A project declares named values; a field bound to a name takes the value of
//! that property. [`Resolvable`] says how each kind of field reads one.
use vstd::prelude::*;

use crate::number::{single_to_i64, Scalar, ScalarView};
use crate::table::Table;
use crate::text::{chars_of, join, trim, white};
use crate::value::{flag, one, strtof, true_word, Color, DynamicValue, DynamicView};

verus! {

/// A text together with the single-precision number it reads as. For a number
/// the text is its printed form.
#[derive(Debug)]
pub struct Reading {
    /// The text.
    pub text: String,
    /// The bit pattern of the number.
    pub single: u32,
}

/// What a [`Reading`] holds.
pub struct ReadingView {
    /// The text.
    pub text: Seq<char>,
    /// The bit pattern of the number.
    pub single: u32,
}

impl View for Reading {
    type V = ReadingView;

    open spec fn view(&self) -> ReadingView {
        ReadingView { text: self.text@, single: self.single }
    }
}

impl Reading {
    /// An equal reading.
    pub fn copy(&self) -> (r: Reading)
        ensures
            r@ == self@,
    {
        Reading { text: self.text.clone(), single: self.single }
    }
}

/// A concrete property value.
#[derive(Debug)]
pub enum PropertyValue {
    /// A `bool` property.
    Bool(bool),
    /// A `slider` property.
    Number {
        /// The bit pattern of the number as a double.
        double: u64,
        /// Its printed form, and the number narrowed to single precision.
        reading: Reading,
    },
    /// A `color` property (RGBA).
    Color([Reading; 4]),
    /// A `combo` property: its selected option value.
    Combo(Reading),
    /// A textual property (`text`, `textinput`, `file`, …).
    Text(Reading),
}

/// What a [`PropertyValue`] holds.
pub enum PropertyView {
    /// A `bool` property.
    Bool(bool),
    /// A `slider` property.
    Number {
        /// The bit pattern of the number as a double.
        double: u64,
        /// Its printed form and its single-precision reading.
        reading: ReadingView,
    },
    /// A `color` property.
    Color(Seq<ReadingView>),
    /// A `combo` property.
    Combo(ReadingView),
    /// A textual property.
    Text(ReadingView),
}

/// The views of the channels of a color.
pub open spec fn readings(v: Seq<Reading>) -> Seq<ReadingView> {
    Seq::new(v.len(), |i: int| v[i]@)
}

impl View for PropertyValue {
    type V = PropertyView;

    open spec fn view(&self) -> PropertyView {
        match self {
            PropertyValue::Bool(b) => PropertyView::Bool(*b),
            PropertyValue::Number { double, reading } => PropertyView::Number {
                double: *double,
                reading: reading@,
            },
            PropertyValue::Color(c) => PropertyView::Color(readings(c@)),
            PropertyValue::Combo(r) => PropertyView::Combo(r@),
            PropertyValue::Text(r) => PropertyView::Text(r@),
        }
    }
}

/// The texts of the channels of a color.
pub open spec fn channel_texts(c: Seq<ReadingView>) -> Seq<Seq<char>> {
    Seq::new(c.len(), |i: int| c[i].text)
}

/// The text a property compares as.
pub open spec fn condition_text(v: PropertyView) -> Seq<char> {
    match v {
        PropertyView::Bool(b) => if b { "true"@ } else { "false"@ },
        PropertyView::Number { double: _, reading } => reading.text,
        PropertyView::Color(c) => crate::text::joined(channel_texts(c), ' '),
        PropertyView::Combo(r) => r.text,
        PropertyView::Text(r) => r.text,
    }
}

impl PropertyValue {
    /// An equal value.
    pub fn copy(&self) -> (r: PropertyValue)
        ensures
            r@ == self@,
    {
        match self {
            PropertyValue::Bool(b) => PropertyValue::Bool(*b),
            PropertyValue::Number { double, reading } => PropertyValue::Number {
                double: *double,
                reading: reading.copy(),
            },
            PropertyValue::Color(c) => {
                let d: [Reading; 4] = [c[0].copy(), c[1].copy(), c[2].copy(), c[3].copy()];
                assert(readings(d@) =~= readings(c@));
                PropertyValue::Color(d)
            },
            PropertyValue::Combo(r) => PropertyValue::Combo(r.copy()),
            PropertyValue::Text(r) => PropertyValue::Text(r.copy()),
        }
    }

    /// The string form that conditional bindings compare with.
    pub fn as_condition_string(&self) -> (r: String)
        ensures
            r@ == condition_text(self@),
    {
        match self {
            PropertyValue::Bool(b) => if *b {
                "true".to_owned()
            } else {
                "false".to_owned()
            },
            PropertyValue::Number { double: _, reading } => reading.text.clone(),
            PropertyValue::Color(c) => {
                let mut parts: Vec<String> = Vec::new();
                parts.push(c[0].text.clone());
                parts.push(c[1].text.clone());
                parts.push(c[2].text.clone());
                parts.push(c[3].text.clone());
                assert(crate::text::texts(parts@) =~= channel_texts(readings(c@)));
                join(&parts, ' ')
            },
            PropertyValue::Combo(r) => r.text.clone(),
            PropertyValue::Text(r) => r.text.clone(),
        }
    }
}

/// The typed value a project declares for a property.
#[derive(Debug)]
pub enum PropertyKind {
    /// A flag.
    Bool {
        /// Its value.
        value: bool,
    },
    /// A slider.
    Slider {
        /// The bit pattern of its value as a double.
        double: u64,
        /// The printed form of that double, and the value as a single.
        reading: Reading,
    },
    /// A color; its alpha is one.
    Color {
        /// Red, green and blue.
        value: [Reading; 3],
    },
    /// A selection.
    Combo {
        /// The selected option.
        value: Reading,
    },
    /// A label, whose value is its own text.
    Text,
    /// Free text.
    TextInput {
        /// The text.
        value: Reading,
    },
    /// A keyboard shortcut.
    UserShortcut {
        /// The shortcut.
        value: Reading,
    },
    /// A file.
    File {
        /// Its path.
        value: Reading,
    },
    /// A directory.
    Directory {
        /// Its path.
        value: Reading,
    },
    /// A texture.
    SceneTexture {
        /// Its path.
        value: Reading,
    },
}

/// An entry of a project's property list.
#[derive(Debug)]
pub enum PropertyEntry {
    /// A property.
    Property {
        /// Its type and value.
        kind: PropertyKind,
        /// Its label.
        text: Reading,
    },
    /// A group or an entry of unknown type, which has no value.
    Other,
}

/// The value of a color property.
pub open spec fn opaque_color(v: Seq<ReadingView>) -> PropertyView {
    PropertyView::Color(
        v.push(ReadingView { text: "1"@, single: 0x3f80_0000 }),
    )
}

/// The value an entry contributes to the bag.
pub open spec fn entry_value(e: PropertyEntry) -> Option<PropertyView> {
    match e {
        PropertyEntry::Other => None,
        PropertyEntry::Property { kind, text } => Some(
            match kind {
                PropertyKind::Bool { value } => PropertyView::Bool(value),
                PropertyKind::Slider { double, reading } => PropertyView::Number {
                    double,
                    reading: reading@,
                },
                PropertyKind::Color { value } => opaque_color(readings(value@)),
                PropertyKind::Combo { value } => PropertyView::Combo(value@),
                PropertyKind::Text => PropertyView::Text(text@),
                PropertyKind::TextInput { value } => PropertyView::Text(value@),
                PropertyKind::UserShortcut { value } => PropertyView::Text(value@),
                PropertyKind::File { value } => PropertyView::Text(value@),
                PropertyKind::Directory { value } => PropertyView::Text(value@),
                PropertyKind::SceneTexture { value } => PropertyView::Text(value@),
            },
        ),
    }
}

/// The values that a list of entries declares: each property under its name,
/// the last one of a name standing.
pub open spec fn declared(entries: Seq<(String, PropertyEntry)>) -> Map<Seq<char>, PropertyView>
    decreases entries.len(),
{
    if entries.len() == 0 {
        Map::empty()
    } else {
        let before = declared(entries.drop_last());
        match entry_value(entries.last().1) {
            Some(v) => before.insert(entries.last().0@, v),
            None => before,
        }
    }
}

/// A map of property names to current values. Scene fields resolve against
/// this.
#[derive(Debug)]
pub struct PropertyBag {
    /// The values by name.
    pub values: Table<PropertyValue>,
}

impl View for PropertyBag {
    type V = Map<Seq<char>, PropertyView>;

    open spec fn view(&self) -> Map<Seq<char>, PropertyView> {
        self.values@.map_values(|v: PropertyValue| v@)
    }
}

/// Inserting a value changes its view and no other.
proof fn lemma_bag_insert(m: Map<Seq<char>, PropertyValue>, k: Seq<char>, v: PropertyValue)
    ensures
        m.insert(k, v).map_values(|v: PropertyValue| v@) == m.map_values(|v: PropertyValue| v@).insert(
            k,
            v@,
        ),
{
    assert(m.insert(k, v).map_values(|v: PropertyValue| v@) =~= m.map_values(
        |v: PropertyValue| v@,
    ).insert(k, v@));
}

/// The pieces of `s` between runs of white space: `done` are those finished
/// before its last piece, whose characters so far are `piece`.
pub open spec fn words(s: Seq<char>) -> Seq<Seq<char>> {
    let (done, piece) = word_scan(s);
    if piece.len() > 0 {
        done.push(piece)
    } else {
        done
    }
}

/// The finished words of `s` and the characters of the one at its end.
pub open spec fn word_scan(s: Seq<char>) -> (Seq<Seq<char>>, Seq<char>)
    decreases s.len(),
{
    if s.len() == 0 {
        (Seq::empty(), Seq::empty())
    } else {
        let (done, piece) = word_scan(s.drop_last());
        if !crate::text::is_white(s.last()) {
            (done, piece.push(s.last()))
        } else if piece.len() > 0 {
            (done.push(piece), Seq::empty())
        } else {
            (done, Seq::empty())
        }
    }
}

/// The words of a text.
pub fn split_words(s: &str) -> (out: Vec<String>)
    ensures
        crate::text::texts(out@) == words(s@),
{
    let chars = chars_of(s);
    let mut out: Vec<String> = Vec::new();
    let mut piece: Vec<char> = Vec::new();
    let mut i: usize = 0;
    assert(crate::text::texts(out@) =~= Seq::<Seq<char>>::empty());
    while i < chars.len()
        invariant
            i <= chars@.len(),
            chars@ == s@,
            word_scan(s@.take(i as int)) == (crate::text::texts(out@), piece@),
        decreases chars@.len() - i,
    {
        let c = chars[i];
        let ghost head = s@.take(i as int + 1);
        let ghost was = crate::text::texts(out@);
        assert(head.drop_last() == s@.take(i as int));
        assert(head.last() == c);
        if !white(c) {
            piece.push(c);
        } else if piece.len() > 0 {
            let word = crate::text::slice_text(&piece, 0, piece.len());
            assert(word@ == piece@);
            out.push(word);
            assert(crate::text::texts(out@) =~= was.push(piece@));
            piece = Vec::new();
        }
        i = i + 1;
    }
    assert(s@.take(s@.len() as int) == s@);
    if piece.len() > 0 {
        let ghost was = crate::text::texts(out@);
        let word = crate::text::slice_text(&piece, 0, piece.len());
        assert(word@ == piece@);
        out.push(word);
        assert(crate::text::texts(out@) =~= was.push(piece@));
    }
    out
}

/// A `setProperty` text in the type of the property it is for. Where the type
/// is numeric this is the literal still to be read as a number.
#[derive(Debug)]
pub enum Override {
    /// A flag.
    Bool(bool),
    /// The literal of a number.
    Number(String),
    /// The literals of the first one to four channels of a color; channels
    /// left out are zero, but for an alpha of one.
    Color(Vec<String>),
    /// A selected option.
    Combo(String),
    /// A text.
    Text(String),
}

/// What an [`Override`] holds.
pub enum OverrideView {
    /// A flag.
    Bool(bool),
    /// The literal of a number.
    Number(Seq<char>),
    /// The literals of the channels of a color.
    Color(Seq<Seq<char>>),
    /// A selected option.
    Combo(Seq<char>),
    /// A text.
    Text(Seq<char>),
}

impl View for Override {
    type V = OverrideView;

    open spec fn view(&self) -> OverrideView {
        match self {
            Override::Bool(b) => OverrideView::Bool(*b),
            Override::Number(t) => OverrideView::Number(t@),
            Override::Color(v) => OverrideView::Color(crate::text::texts(v@)),
            Override::Combo(t) => OverrideView::Combo(t@),
            Override::Text(t) => OverrideView::Text(t@),
        }
    }
}

/// The first four words of a text.
pub open spec fn channel_words(raw: Seq<char>) -> Seq<Seq<char>> {
    let w = words(raw);
    if w.len() <= 4 {
        w
    } else {
        w.take(4)
    }
}

/// What a raw text means for a property whose current value is `current`;
/// nothing when it does not parse.
pub open spec fn override_of(current: PropertyView, raw: Seq<char>) -> Option<OverrideView> {
    match current {
        PropertyView::Bool(_) => Some(
            OverrideView::Bool(crate::value::is_true_word(crate::text::trimmed(raw))),
        ),
        PropertyView::Number { double: _, reading: _ } => if crate::literal::is_float_literal(
            crate::text::trimmed(raw),
        ) {
            Some(OverrideView::Number(crate::text::trimmed(raw)))
        } else {
            None
        },
        PropertyView::Color(_) => {
            let c = channel_words(raw);
            if c.len() > 0 && forall|i: int|
                0 <= i < c.len() ==> crate::literal::is_float_literal(#[trigger] c[i]) {
                Some(OverrideView::Color(c))
            } else {
                None
            }
        },
        PropertyView::Combo(_) => Some(OverrideView::Combo(crate::text::trimmed(raw))),
        PropertyView::Text(_) => Some(OverrideView::Text(raw)),
    }
}

/// Whether a value is what an override stands for: of its kind and with its
/// text. Of a number the text is that of some number; which number a literal
/// stands for is left to the reader. Channels that an override leaves out are
/// zero, but for an alpha of one.
pub open spec fn stands_for(o: OverrideView, v: PropertyView) -> bool {
    match o {
        OverrideView::Bool(b) => v == PropertyView::Bool(b),
        OverrideView::Number(_) => v matches PropertyView::Number { double: _, reading }
            && crate::literal::is_float_literal(reading.text),
        OverrideView::Color(c) => v matches PropertyView::Color(r) && {
            &&& r.len() == 4
            &&& forall|i: int|
                0 <= i < c.len() && i < 4 ==> crate::literal::is_float_literal(
                    (#[trigger] r[i]).text,
                )
            &&& forall|i: int|
                c.len() <= i < 3 ==> #[trigger] r[i] == (ReadingView { text: "0"@, single: 0 })
            &&& c.len() <= 3 ==> r[3] == (ReadingView { text: "1"@, single: 0x3f80_0000 })
        },
        OverrideView::Combo(t) => v matches PropertyView::Combo(r) && r.text == t,
        OverrideView::Text(t) => v matches PropertyView::Text(r) && r.text == t,
    }
}

/// Whether a function turns every override into a value that it stands for,
/// and one override into one value.
pub open spec fn reads_overrides<F: Fn(Override) -> PropertyValue>(read: F) -> bool {
    &&& forall|o: Override| read.requires((o,))
    &&& forall|o: Override, v: PropertyValue| #[trigger]
        read.ensures((o,), v) ==> stands_for(o@, v@)
    &&& forall|o: Override, v: PropertyValue, p: Override, w: PropertyValue|
        o@ == p@ && #[trigger] read.ensures((o,), v) && #[trigger] read.ensures((p,), w) ==> v@
            == w@
}

/// Whether two values are of one kind.
pub open spec fn same_kind(a: PropertyView, b: PropertyView) -> bool {
    match a {
        PropertyView::Bool(_) => b is Bool,
        PropertyView::Number { double: _, reading: _ } => b is Number,
        PropertyView::Color(_) => b is Color,
        PropertyView::Combo(_) => b is Combo,
        PropertyView::Text(_) => b is Text,
    }
}

/// Whether a raw override applies: its name is declared, and its text parses
/// in the kind of the property.
pub open spec fn accepts(
    bag: Map<Seq<char>, PropertyView>,
    name: Seq<char>,
    raw: Seq<char>,
) -> bool {
    bag.dom().contains(name) && override_of(bag[name], raw) is Some
}

/// What a raw override does to a bag: nothing where it does not apply, else it
/// sets what `read` made of the parsed text.
pub open spec fn overridden<F: Fn(Override) -> PropertyValue>(
    before: Map<Seq<char>, PropertyView>,
    name: Seq<char>,
    raw: Seq<char>,
    read: F,
    after: Map<Seq<char>, PropertyView>,
) -> bool {
    if accepts(before, name, raw) {
        exists|o: Override, v: PropertyValue|
            Some(o@) == override_of(before[name], raw) && #[trigger] read.ensures((o,), v) && after
                == before.insert(name, v@)
    } else {
        after == before
    }
}

/// Whether at most the value of `name` differs in two bags, and the value of
/// each property is of one kind in both.
pub open spec fn changes_value(
    before: Map<Seq<char>, PropertyView>,
    name: Seq<char>,
    after: Map<Seq<char>, PropertyView>,
) -> bool {
    &&& after.dom() == before.dom()
    &&& forall|k: Seq<char>|
        before.dom().contains(k) && k != name ==> #[trigger] after[k] == before[k]
    &&& before.dom().contains(name) ==> same_kind(before[name], after[name])
}

/// An override keeps the kind of the property that it sets, and leaves the
/// others alone: a color stays a color, a slider a number.
pub proof fn law_override_keeps_kind<F: Fn(Override) -> PropertyValue>(
    before: Map<Seq<char>, PropertyView>,
    name: Seq<char>,
    raw: Seq<char>,
    read: F,
    after: Map<Seq<char>, PropertyView>,
)
    requires
        reads_overrides(read),
        overridden(before, name, raw, read, after),
    ensures
        changes_value(before, name, after),
        accepts(before, name, raw) ==> stands_for(override_of(before[name], raw)->0, after[name]),
{
    if accepts(before, name, raw) {
        let (o, v) = choose|o: Override, v: PropertyValue|
            Some(o@) == override_of(before[name], raw) && #[trigger] read.ensures((o,), v) && after
                == before.insert(name, v@);
        assert(stands_for(o@, v@));
        assert(after.dom() =~= before.dom());
    }
}

/// [`PropertyBag::set_from_str`] and [`crate::load::apply_property_override`]
/// do the same to a bag: they accept the same texts, those that [`accepts`]
/// admits, and leave the same bag behind.
pub proof fn law_overrides_agree<F: Fn(Override) -> PropertyValue>(
    before: Map<Seq<char>, PropertyView>,
    name: Seq<char>,
    raw: Seq<char>,
    read: F,
    a: Map<Seq<char>, PropertyView>,
    b: Map<Seq<char>, PropertyView>,
)
    requires
        reads_overrides(read),
        overridden(before, name, raw, read, a),
        overridden(before, name, raw, read, b),
    ensures
        a == b,
        !accepts(before, name, raw) ==> a == before,
{
}

/// Whether a text is a floating-point literal from end to end.
pub fn whole_float(s: &str) -> (r: bool)
    ensures
        r == crate::literal::is_float_literal(s@),
{
    let lead = crate::literal::float_prefix(s);
    proof {
        crate::literal::law_float_lead_longest(s@);
        assert(s@.take(s@.len() as int) == s@);
        if crate::literal::float_lead(s@).len() == s@.len() {
            assert(crate::literal::float_lead(s@) == s@);
        }
        if s@.len() == 0 && crate::literal::is_float_literal(s@) {
            crate::property::lemma_empty_literal(s@);
        }
    }
    let n = chars_of(lead.as_str()).len();
    let m = chars_of(s).len();
    n == m && n > 0
}

/// The empty text is no literal.
pub proof fn lemma_empty_literal(s: Seq<char>)
    requires
        s.len() == 0,
    ensures
        !crate::literal::is_float_literal(s),
{
    reveal_strlit("infinity");
    reveal_strlit("inf");
    reveal_strlit("nan");
}

impl PropertyBag {
    /// The names stand in order, each once.
    pub open spec fn wf(&self) -> bool {
        self.values.wf()
    }

    /// An empty bag: every bound field keeps its literal.
    pub fn new() -> (r: PropertyBag)
        ensures
            r.wf(),
            r@ == Map::<Seq<char>, PropertyView>::empty(),
    {
        let r = PropertyBag { values: Table::new() };
        assert(r@ =~= Map::<Seq<char>, PropertyView>::empty());
        r
    }

    /// Build the bag from the entries of a project. Groups and unknown
    /// entries contribute nothing.
    pub fn from_project(entries: &Vec<(String, PropertyEntry)>) -> (r: PropertyBag)
        ensures
            r.wf(),
            r@ == declared(entries@),
    {
        let mut r = PropertyBag::new();
        let mut i: usize = 0;
        assert(entries@.take(0) =~= Seq::<(String, PropertyEntry)>::empty());
        while i < entries.len()
            invariant
                i <= entries@.len(),
                r.wf(),
                r@ == declared(entries@.take(i as int)),
            decreases entries@.len() - i,
        {
            let ghost head = entries@.take(i as int + 1);
            assert(head.drop_last() == entries@.take(i as int));
            assert(head.last() == entries@[i as int]);
            match &entries[i].1 {
                PropertyEntry::Other => {},
                PropertyEntry::Property { kind, text } => {
                    let value = match kind {
                        PropertyKind::Bool { value } => PropertyValue::Bool(*value),
                        PropertyKind::Slider { double, reading } => PropertyValue::Number {
                            double: *double,
                            reading: reading.copy(),
                        },
                        PropertyKind::Color { value } => {
                            let alpha = Reading { text: "1".to_owned(), single: 0x3f80_0000 };
                            let c: [Reading; 4] = [
                                value[0].copy(),
                                value[1].copy(),
                                value[2].copy(),
                                alpha,
                            ];
                            assert(PropertyView::Color(readings(c@)) == opaque_color(readings(value@)))
                                by {
                                assert(readings(c@) =~= readings(value@).push(
                                    ReadingView { text: "1"@, single: 0x3f80_0000 },
                                ));
                            }
                            PropertyValue::Color(c)
                        },
                        PropertyKind::Combo { value } => PropertyValue::Combo(value.copy()),
                        PropertyKind::Text => PropertyValue::Text(text.copy()),
                        PropertyKind::TextInput { value } => PropertyValue::Text(value.copy()),
                        PropertyKind::UserShortcut { value } => PropertyValue::Text(value.copy()),
                        PropertyKind::File { value } => PropertyValue::Text(value.copy()),
                        PropertyKind::Directory { value } => PropertyValue::Text(value.copy()),
                        PropertyKind::SceneTexture { value } => PropertyValue::Text(value.copy()),
                    };
                    assert(entry_value(entries@[i as int].1) == Some(value@));
                    r.insert(entries[i].0.as_str(), value);
                },
            }
            i = i + 1;
        }
        assert(entries@.take(entries@.len() as int) == entries@);
        r
    }

    /// The current value of a property, if declared.
    pub fn get(&self, name: &str) -> (r: Option<&PropertyValue>)
        requires
            self.wf(),
        ensures
            match r {
                Some(v) => self@.dom().contains(name@) && v@ == self@[name@],
                None => !self@.dom().contains(name@),
            },
    {
        self.values.get(name)
    }

    /// Override a declared property; a name that is not declared is rejected
    /// and changes nothing. Returns whether it applied.
    pub fn set(&mut self, name: &str, value: PropertyValue) -> (r: bool)
        requires
            old(self).wf(),
        ensures
            final(self).wf(),
            r == old(self)@.dom().contains(name@),
            r ==> final(self)@ == old(self)@.insert(name@, value@),
            !r ==> final(self)@ == old(self)@,
    {
        match self.values.get(name) {
            None => false,
            Some(_) => {
                proof {
                    lemma_bag_insert(self.values@, name@, value);
                }
                self.values.insert(name, value);
                true
            },
        }
    }

    /// Insert or replace a property.
    pub fn insert(&mut self, name: &str, value: PropertyValue)
        requires
            old(self).wf(),
        ensures
            final(self).wf(),
            final(self)@ == old(self)@.insert(name@, value@),
    {
        proof {
            lemma_bag_insert(self.values@, name@, value);
        }
        self.values.insert(name, value);
    }

    /// Read a raw text in the type of the property `name`; nothing when the
    /// name is not declared or the text does not parse in that type.
    pub fn parse_override(&self, name: &str, raw: &str) -> (r: Option<Override>)
        requires
            self.wf(),
        ensures
            match r {
                Some(o) => self@.dom().contains(name@) && override_of(self@[name@], raw@) == Some(o@),
                None => self@.dom().contains(name@) ==> override_of(self@[name@], raw@) is None,
            },
    {
        let current = match self.get(name) {
            None => {
                return None;
            },
            Some(v) => v,
        };
        match current {
            PropertyValue::Bool(_) => {
                let t = trim(raw);
                Some(Override::Bool(true_word(t.as_str())))
            },
            PropertyValue::Number { double: _, reading: _ } => {
                let t = trim(raw);
                if whole_float(t.as_str()) {
                    Some(Override::Number(t))
                } else {
                    None
                }
            },
            PropertyValue::Color(_) => {
                let mut all = split_words(raw);
                let ghost w = crate::text::texts(all@);
                if all.len() > 4 {
                    all.truncate(4);
                    assert(crate::text::texts(all@) =~= w.take(4));
                }
                let ghost c = channel_words(raw@);
                assert(crate::text::texts(all@) == c);
                let mut i: usize = 0;
                while i < all.len()
                    invariant
                        i <= all@.len(),
                        crate::text::texts(all@) == c,
                        forall|k: int|
                            0 <= k < i ==> crate::literal::is_float_literal(#[trigger] c[k]),
                        c == channel_words(raw@),
                        self@.dom().contains(name@),
                        self@[name@] is Color,
                    decreases all@.len() - i,
                {
                    assert(c[i as int] == all@[i as int]@);
                    if !whole_float(all[i].as_str()) {
                        return None;
                    }
                    i = i + 1;
                }
                assert(c.len() == all@.len());
                if all.len() == 0 {
                    None
                } else {
                    Some(Override::Color(all))
                }
            },
            PropertyValue::Combo(_) => Some(Override::Combo(trim(raw))),
            PropertyValue::Text(_) => Some(Override::Text(raw.to_owned())),
        }
    }

    /// Parse a raw text into the declared type of `name` and set it. `read`
    /// turns the parsed text into the value it stands for. Returns whether it
    /// applied: an undeclared name or a text that does not parse changes
    /// nothing. The property keeps its kind.
    pub fn set_from_str<F: Fn(Override) -> PropertyValue>(
        &mut self,
        name: &str,
        raw: &str,
        read: F,
    ) -> (r: bool)
        requires
            old(self).wf(),
            reads_overrides(read),
        ensures
            final(self).wf(),
            r == accepts(old(self)@, name@, raw@),
            overridden(old(self)@, name@, raw@, read, final(self)@),
            !r ==> final(self)@ == old(self)@,
            changes_value(old(self)@, name@, final(self)@),
            r ==> stands_for(override_of(old(self)@[name@], raw@)->0, final(self)@[name@]),
    {
        match self.parse_override(name, raw) {
            None => false,
            Some(o) => {
                let v = read(o);
                assert(read.ensures((o,), v));
                let r = self.set(name, v);
                proof {
                    law_override_keeps_kind(old(self)@, name@, raw@, read, self@);
                }
                r
            },
        }
    }

    /// Number of declared properties.
    pub fn len(&self) -> (n: usize)
        requires
            self.wf(),
        ensures
            n == self@.dom().len(),
    {
        assert(self@.dom() =~= self.values@.dom());
        self.values.len()
    }

    /// Whether the bag is empty.
    pub fn is_empty(&self) -> (r: bool)
        ensures
            r == (self@ == Map::<Seq<char>, PropertyView>::empty()),
    {
        let r = self.values.entries.len() == 0;
        proof {
            if r {
                assert(self@ =~= Map::<Seq<char>, PropertyView>::empty());
            } else {
                let k = self.values.entries@[0].0@;
                assert(crate::table::named(self.values.entries@, k, 0));
                assert(self@.dom().contains(k));
            }
        }
        r
    }
}

/// The number a property reads as.
pub open spec fn property_scalar(v: PropertyView) -> ScalarView {
    match v {
        PropertyView::Bool(b) => crate::value::flag_scalar(b),
        PropertyView::Number { double, reading: _ } => ScalarView::Double(double),
        PropertyView::Color(c) => ScalarView::Single(c[0].single),
        PropertyView::Combo(r) => crate::value::read_scalar(r.text),
        PropertyView::Text(r) => crate::value::read_scalar(r.text),
    }
}

/// The bit pattern of the number a property reads as.
pub open spec fn property_single(v: PropertyView) -> u32 {
    match v {
        PropertyView::Bool(b) => if b { 0x3f80_0000 } else { 0 },
        PropertyView::Number { double: _, reading } => reading.single,
        PropertyView::Color(c) => c[0].single,
        PropertyView::Combo(r) => r.single,
        PropertyView::Text(r) => r.single,
    }
}

/// The number a property reads as: the first channel of a color, the leading
/// literal of a text.
pub fn prop_f32(v: &PropertyValue) -> (r: Scalar)
    ensures
        r@ == property_scalar(v@),
{
    match v {
        PropertyValue::Bool(b) => flag(*b),
        PropertyValue::Number { double, reading: _ } => Scalar::Double(*double),
        PropertyValue::Color(c) => Scalar::Single(c[0].single),
        PropertyValue::Combo(r) => strtof(r.text.as_str()),
        PropertyValue::Text(r) => strtof(r.text.as_str()),
    }
}

/// A field type that a property value can be read as.
pub trait Resolvable: Sized {
    /// What a value of the type shows.
    type Shown;

    /// What this value shows.
    spec fn shown(&self) -> Self::Shown;

    /// What a property reads as.
    spec fn of_property(v: PropertyView) -> Self::Shown;

    /// What the outcome of a condition reads as.
    spec fn of_bool(b: bool) -> Self::Shown;

    /// Convert a property value to this type.
    fn from_property(value: &PropertyValue) -> (r: Self)
        ensures
            r.shown() == Self::of_property(value@),
    ;

    /// Convert the outcome of a condition to this type.
    fn from_bool(b: bool) -> (r: Self)
        ensures
            r.shown() == Self::of_bool(b),
    ;
}

impl Resolvable for bool {
    type Shown = bool;

    open spec fn shown(&self) -> bool {
        *self
    }

    open spec fn of_property(v: PropertyView) -> bool {
        match v {
            PropertyView::Bool(b) => b,
            PropertyView::Combo(r) => crate::value::is_true_word(r.text),
            PropertyView::Text(r) => crate::value::is_true_word(r.text),
            _ => !crate::number::single_zero(property_single(v)),
        }
    }

    open spec fn of_bool(b: bool) -> bool {
        b
    }

    fn from_property(value: &PropertyValue) -> (r: Self) {
        match value {
            PropertyValue::Bool(b) => *b,
            PropertyValue::Combo(r) => true_word(r.text.as_str()),
            PropertyValue::Text(r) => true_word(r.text.as_str()),
            PropertyValue::Number { double: _, reading } => reading.single % 0x8000_0000 != 0,
            PropertyValue::Color(c) => c[0].single % 0x8000_0000 != 0,
        }
    }

    fn from_bool(b: bool) -> (r: Self) {
        b
    }
}

impl Resolvable for Scalar {
    type Shown = ScalarView;

    open spec fn shown(&self) -> ScalarView {
        self@
    }

    open spec fn of_property(v: PropertyView) -> ScalarView {
        property_scalar(v)
    }

    open spec fn of_bool(b: bool) -> ScalarView {
        crate::value::flag_scalar(b)
    }

    fn from_property(value: &PropertyValue) -> (r: Self) {
        prop_f32(value)
    }

    fn from_bool(b: bool) -> (r: Self) {
        flag(b)
    }
}

impl Resolvable for i64 {
    type Shown = i64;

    open spec fn shown(&self) -> i64 {
        *self
    }

    open spec fn of_property(v: PropertyView) -> i64 {
        match v {
            PropertyView::Bool(b) => if b { 1 } else { 0 },
            _ => crate::number::single_truncated(property_single(v)),
        }
    }

    open spec fn of_bool(b: bool) -> i64 {
        if b {
            1
        } else {
            0
        }
    }

    fn from_property(value: &PropertyValue) -> (r: Self) {
        match value {
            PropertyValue::Bool(b) => if *b {
                1
            } else {
                0
            },
            PropertyValue::Number { double: _, reading } => single_to_i64(reading.single),
            PropertyValue::Color(c) => single_to_i64(c[0].single),
            PropertyValue::Combo(r) => single_to_i64(r.single),
            PropertyValue::Text(r) => single_to_i64(r.single),
        }
    }

    fn from_bool(b: bool) -> (r: Self) {
        if b {
            1
        } else {
            0
        }
    }
}

impl Resolvable for String {
    type Shown = Seq<char>;

    open spec fn shown(&self) -> Seq<char> {
        self@
    }

    open spec fn of_property(v: PropertyView) -> Seq<char> {
        condition_text(v)
    }

    open spec fn of_bool(b: bool) -> Seq<char> {
        if b {
            "true"@
        } else {
            "false"@
        }
    }

    fn from_property(value: &PropertyValue) -> (r: Self) {
        value.as_condition_string()
    }

    fn from_bool(b: bool) -> (r: Self) {
        if b {
            "true".to_owned()
        } else {
            "false".to_owned()
        }
    }
}

impl Resolvable for [Scalar; 2] {
    type Shown = Seq<ScalarView>;

    open spec fn shown(&self) -> Seq<ScalarView> {
        crate::number::scalars(self@)
    }

    open spec fn of_property(v: PropertyView) -> Seq<ScalarView> {
        match v {
            PropertyView::Color(c) => seq![
                ScalarView::Single(c[0].single),
                ScalarView::Single(c[1].single),
            ],
            _ => seq![property_scalar(v), property_scalar(v)],
        }
    }

    open spec fn of_bool(b: bool) -> Seq<ScalarView> {
        seq![crate::value::flag_scalar(b), crate::value::flag_scalar(b)]
    }

    fn from_property(value: &PropertyValue) -> (r: Self) {
        match value {
            PropertyValue::Color(c) => {
                let r = [Scalar::Single(c[0].single), Scalar::Single(c[1].single)];
                assert(r.shown() =~= Self::of_property(value@));
                r
            },
            _ => {
                let r = [prop_f32(value), prop_f32(value)];
                assert(r.shown() =~= Self::of_property(value@));
                r
            },
        }
    }

    fn from_bool(b: bool) -> (r: Self) {
        let r = [flag(b), flag(b)];
        assert(r.shown() =~= Self::of_bool(b));
        r
    }
}

impl Resolvable for [Scalar; 3] {
    type Shown = Seq<ScalarView>;

    open spec fn shown(&self) -> Seq<ScalarView> {
        crate::number::scalars(self@)
    }

    open spec fn of_property(v: PropertyView) -> Seq<ScalarView> {
        match v {
            PropertyView::Color(c) => seq![
                ScalarView::Single(c[0].single),
                ScalarView::Single(c[1].single),
                ScalarView::Single(c[2].single),
            ],
            _ => seq![property_scalar(v), property_scalar(v), property_scalar(v)],
        }
    }

    open spec fn of_bool(b: bool) -> Seq<ScalarView> {
        let x = crate::value::flag_scalar(b);
        seq![x, x, x]
    }

    fn from_property(value: &PropertyValue) -> (r: Self) {
        match value {
            PropertyValue::Color(c) => {
                let r = [
                    Scalar::Single(c[0].single),
                    Scalar::Single(c[1].single),
                    Scalar::Single(c[2].single),
                ];
                assert(r.shown() =~= Self::of_property(value@));
                r
            },
            _ => {
                let r = [prop_f32(value), prop_f32(value), prop_f32(value)];
                assert(r.shown() =~= Self::of_property(value@));
                r
            },
        }
    }

    fn from_bool(b: bool) -> (r: Self) {
        let r = [flag(b), flag(b), flag(b)];
        assert(r.shown() =~= Self::of_bool(b));
        r
    }
}

/// The channels of a color property.
pub open spec fn channels(c: Seq<ReadingView>) -> Seq<ScalarView> {
    Seq::new(c.len(), |i: int| ScalarView::Single(c[i].single))
}

/// The channels of a color property as numbers.
pub fn color_channels(c: &[Reading; 4]) -> (r: Color)
    ensures
        crate::number::scalars(r@) == channels(readings(c@)),
{
    let r: Color = [
        Scalar::Single(c[0].single),
        Scalar::Single(c[1].single),
        Scalar::Single(c[2].single),
        Scalar::Single(c[3].single),
    ];
    assert(crate::number::scalars(r@) =~= channels(readings(c@)));
    r
}

impl Resolvable for [Scalar; 4] {
    type Shown = Seq<ScalarView>;

    open spec fn shown(&self) -> Seq<ScalarView> {
        crate::number::scalars(self@)
    }

    open spec fn of_property(v: PropertyView) -> Seq<ScalarView> {
        match v {
            PropertyView::Color(c) => channels(c),
            _ => seq![
                property_scalar(v),
                property_scalar(v),
                property_scalar(v),
                ScalarView::Whole(1),
            ],
        }
    }

    open spec fn of_bool(b: bool) -> Seq<ScalarView> {
        let x = crate::value::flag_scalar(b);
        seq![x, x, x, ScalarView::Whole(1)]
    }

    fn from_property(value: &PropertyValue) -> (r: Self) {
        match value {
            PropertyValue::Color(c) => color_channels(c),
            _ => {
                let r = [prop_f32(value), prop_f32(value), prop_f32(value), one()];
                assert(r.shown() =~= Self::of_property(value@));
                r
            },
        }
    }

    fn from_bool(b: bool) -> (r: Self) {
        let r = [flag(b), flag(b), flag(b), one()];
        assert(r.shown() =~= Self::of_bool(b));
        r
    }
}

impl Resolvable for DynamicValue {
    type Shown = DynamicView;

    open spec fn shown(&self) -> DynamicView {
        self@
    }

    open spec fn of_property(v: PropertyView) -> DynamicView {
        match v {
            PropertyView::Bool(b) => DynamicView::Bool(b),
            PropertyView::Number { double, reading: _ } => DynamicView::Float(
                ScalarView::Double(double),
            ),
            PropertyView::Color(c) => DynamicView::Color(channels(c)),
            PropertyView::Combo(r) => DynamicView::Str(r.text),
            PropertyView::Text(r) => DynamicView::Str(r.text),
        }
    }

    open spec fn of_bool(b: bool) -> DynamicView {
        DynamicView::Bool(b)
    }

    fn from_property(value: &PropertyValue) -> (r: Self) {
        match value {
            PropertyValue::Bool(b) => DynamicValue::Bool(*b),
            PropertyValue::Number { double, reading: _ } => DynamicValue::Float(Scalar::Double(*double)),
            PropertyValue::Color(c) => DynamicValue::Color(color_channels(c)),
            PropertyValue::Combo(r) => DynamicValue::Str(r.text.clone()),
            PropertyValue::Text(r) => DynamicValue::Str(r.text.clone()),
        }
    }

    fn from_bool(b: bool) -> (r: Self) {
        DynamicValue::Bool(b)
    }
}

/// What a project declares last under a name is what the name stands for, and
/// nothing else has a value: groups and unknown entries have none.
pub proof fn law_last_declaration_counts(entries: Seq<(String, PropertyEntry)>, i: int)
    requires
        0 <= i < entries.len(),
        entries[i].1 is Property,
        forall|j: int|
            i < j < entries.len() && (#[trigger] entries[j]).1 is Property ==> entries[j].0@
                != entries[i].0@,
    ensures
        declared(entries).dom().contains(entries[i].0@),
        Some(declared(entries)[entries[i].0@]) == entry_value(entries[i].1),
    decreases entries.len(),
{
    if i < entries.len() - 1 {
        let shorter = entries.drop_last();
        assert forall|j: int|
            i < j < shorter.len() && (#[trigger] shorter[j]).1 is Property implies shorter[j].0@
            != shorter[i].0@ by {
            assert(entries[j] == shorter[j]);
        }
        law_last_declaration_counts(shorter, i);
        assert(entries.last() == entries[entries.len() - 1]);
    }
}

/// Every value of a bag was declared under its name.
pub proof fn law_values_were_declared(entries: Seq<(String, PropertyEntry)>, name: Seq<char>) -> (i:
    int)
    requires
        declared(entries).dom().contains(name),
    ensures
        0 <= i < entries.len(),
        entries[i].0@ == name,
        entries[i].1 is Property,
        entry_value(entries[i].1) == Some(declared(entries)[name]),
    decreases entries.len(),
{
    let last = entries.last();
    if entry_value(last.1) is Some && last.0@ == name {
        entries.len() - 1
    } else {
        let i = law_values_were_declared(entries.drop_last(), name);
        assert(entries[i] == entries.drop_last()[i]);
        i
    }
}

/// What an entry declares keeps what it holds: a color gets an alpha of one, a
/// label is its own text, and whatever else is textual is a text.
pub proof fn law_entry_keeps_value(kind: PropertyKind, text: Reading)
    ensures
        entry_value(PropertyEntry::Other) is None,
        entry_value(PropertyEntry::Property { kind, text }) is Some,
        ({
            let v = entry_value(PropertyEntry::Property { kind, text })->0;
            &&& kind matches PropertyKind::Bool { value } ==> v == PropertyView::Bool(value)
            &&& kind matches PropertyKind::Slider { double, reading } ==> v
                == (PropertyView::Number { double, reading: reading@ })
            &&& kind matches PropertyKind::Color { value } ==> v is Color && v->Color_0.len() == 4
                && v->Color_0[0] == value@[0]@ && v->Color_0[1] == value@[1]@ && v->Color_0[2]
                == value@[2]@ && v->Color_0[3].text == "1"@ && v->Color_0[3].single == 0x3f80_0000
            &&& kind matches PropertyKind::Combo { value } ==> v == PropertyView::Combo(value@)
            &&& kind is Text ==> v == PropertyView::Text(text@)
            &&& kind matches PropertyKind::TextInput { value } ==> v == PropertyView::Text(value@)
            &&& kind matches PropertyKind::UserShortcut { value } ==> v == PropertyView::Text(
                value@,
            )
            &&& kind matches PropertyKind::File { value } ==> v == PropertyView::Text(value@)
            &&& kind matches PropertyKind::Directory { value } ==> v == PropertyView::Text(value@)
            &&& kind matches PropertyKind::SceneTexture { value } ==> v == PropertyView::Text(
                value@,
            )
        }),
{
}

/// A condition reads in every field type as a flag property does.
pub proof fn law_condition_reads_as_flag(b: bool)
    ensures
        <bool as Resolvable>::of_bool(b) == b,
        <bool as Resolvable>::of_property(PropertyView::Bool(b)) == b,
        <Scalar as Resolvable>::of_bool(b) == <Scalar as Resolvable>::of_property(
            PropertyView::Bool(b),
        ),
        <Scalar as Resolvable>::of_bool(b) == ScalarView::Whole(
            if b {
                1
            } else {
                0
            },
        ),
        <i64 as Resolvable>::of_bool(b) == <i64 as Resolvable>::of_property(PropertyView::Bool(b)),
        <i64 as Resolvable>::of_bool(b) == (if b {
            1i64
        } else {
            0i64
        }),
        <String as Resolvable>::of_bool(b) == <String as Resolvable>::of_property(
            PropertyView::Bool(b),
        ),
        <String as Resolvable>::of_bool(true) == "true"@,
        <String as Resolvable>::of_bool(false) == "false"@,
        <[Scalar; 2] as Resolvable>::of_bool(b) == <[Scalar; 2] as Resolvable>::of_property(
            PropertyView::Bool(b),
        ),
        <[Scalar; 3] as Resolvable>::of_bool(b) == <[Scalar; 3] as Resolvable>::of_property(
            PropertyView::Bool(b),
        ),
        <[Scalar; 4] as Resolvable>::of_bool(b) == <[Scalar; 4] as Resolvable>::of_property(
            PropertyView::Bool(b),
        ),
        <DynamicValue as Resolvable>::of_bool(b) == <DynamicValue as Resolvable>::of_property(
            PropertyView::Bool(b),
        ),
        <DynamicValue as Resolvable>::of_bool(b) == DynamicView::Bool(b),
{
}

/// A slider is the number that it holds, in every field type: a flag by not
/// being zero, an integer cut off, a text as printed, all but the alpha of a
/// vector.
pub proof fn law_slider_reads_as_number(double: u64, reading: ReadingView)
    ensures
        ({
            let v = PropertyView::Number { double, reading };
            let x = ScalarView::Double(double);
            &&& <Scalar as Resolvable>::of_property(v) == x
            &&& <bool as Resolvable>::of_property(v) == (reading.single % 0x8000_0000 != 0)
            &&& <i64 as Resolvable>::of_property(v) == crate::number::single_truncated(
                reading.single,
            )
            &&& <String as Resolvable>::of_property(v) == reading.text
            &&& <[Scalar; 2] as Resolvable>::of_property(v) == seq![x, x]
            &&& <[Scalar; 3] as Resolvable>::of_property(v) == seq![x, x, x]
            &&& <[Scalar; 4] as Resolvable>::of_property(v) == seq![x, x, x, ScalarView::Whole(1)]
            &&& <DynamicValue as Resolvable>::of_property(v) == DynamicView::Float(x)
            &&& condition_text(v) == reading.text
        }),
{
}

/// A color is the channels that it holds, as many as a field takes, and the
/// first of them where the field takes one; as a text its channels stand in
/// order, a space between them.
pub proof fn law_color_reads_as_channels(c: Seq<ReadingView>)
    requires
        c.len() == 4,
    ensures
        ({
            let v = PropertyView::Color(c);
            let r = ScalarView::Single(c[0].single);
            let g = ScalarView::Single(c[1].single);
            let b = ScalarView::Single(c[2].single);
            let a = ScalarView::Single(c[3].single);
            &&& <Scalar as Resolvable>::of_property(v) == r
            &&& <bool as Resolvable>::of_property(v) == (c[0].single % 0x8000_0000 != 0)
            &&& <i64 as Resolvable>::of_property(v) == crate::number::single_truncated(c[0].single)
            &&& <[Scalar; 2] as Resolvable>::of_property(v) == seq![r, g]
            &&& <[Scalar; 3] as Resolvable>::of_property(v) == seq![r, g, b]
            &&& <[Scalar; 4] as Resolvable>::of_property(v) == seq![r, g, b, a]
            &&& <DynamicValue as Resolvable>::of_property(v) == DynamicView::Color(
                seq![r, g, b, a],
            )
            &&& <String as Resolvable>::of_property(v) == c[0].text + " "@ + c[1].text + " "@
                + c[2].text + " "@ + c[3].text
            &&& condition_text(v) == <String as Resolvable>::of_property(v)
        }),
{
    reveal_strlit(" ");
    let t = channel_texts(c);
    let s1 = t.drop_last();
    let s2 = s1.drop_last();
    let s3 = s2.drop_last();
    reveal_with_fuel(crate::text::joined, 5);
    assert(crate::text::joined(s3, ' ') == c[0].text);
    assert(crate::text::joined(s2, ' ') =~= c[0].text + " "@ + c[1].text);
    assert(crate::text::joined(s1, ' ') =~= c[0].text + " "@ + c[1].text + " "@ + c[2].text);
    assert(crate::text::joined(t, ' ') =~= c[0].text + " "@ + c[1].text + " "@ + c[2].text + " "@
        + c[3].text);
    assert(channels(c) =~= seq![
        ScalarView::Single(c[0].single),
        ScalarView::Single(c[1].single),
        ScalarView::Single(c[2].single),
        ScalarView::Single(c[3].single),
    ]);
}

/// A selection and a text are what they spell, in every field type: a flag
/// where they are a word that means yes, and otherwise the number that they
/// start with.
pub proof fn law_text_reads_as_spelled(r: ReadingView)
    ensures
        ({
            let yes = r.text == "1"@ || r.text == "true"@ || r.text == "True"@ || r.text == "TRUE"@;
            let x = ScalarView::Text(crate::literal::read_literal(r.text));
            forall|v: PropertyView|
                v == PropertyView::Combo(r) || v == PropertyView::Text(r) ==> {
                    &&& #[trigger] condition_text(v) == r.text
                    &&& <bool as Resolvable>::of_property(v) == yes
                    &&& <Scalar as Resolvable>::of_property(v) == x
                    &&& <i64 as Resolvable>::of_property(v) == crate::number::single_truncated(
                        r.single,
                    )
                    &&& <String as Resolvable>::of_property(v) == r.text
                    &&& <[Scalar; 2] as Resolvable>::of_property(v) == seq![x, x]
                    &&& <[Scalar; 3] as Resolvable>::of_property(v) == seq![x, x, x]
                    &&& <[Scalar; 4] as Resolvable>::of_property(v) == seq![
                        x,
                        x,
                        x,
                        ScalarView::Whole(1),
                    ]
                    &&& <DynamicValue as Resolvable>::of_property(v) == DynamicView::Str(r.text)
                }
        }),
{
}

/// Words hold no white space, none is empty, and together they are the text
/// without its white space, in order.
pub proof fn law_words_of_text(s: Seq<char>)
    ensures
        forall|i: int| 0 <= i < words(s).len() ==> (#[trigger] words(s)[i]).len() > 0,
        forall|i: int, k: int|
            0 <= i < words(s).len() && 0 <= k < words(s)[i].len() ==> !crate::text::is_white(
                #[trigger] words(s)[i][k],
            ),
        words(s).flatten() == s.filter(|c: char| !crate::text::is_white(c)),
{
    lemma_word_scan(s);
    let (done, piece) = word_scan(s);
    if piece.len() > 0 {
        lemma_flatten_push(done, piece);
    } else {
        assert(done.flatten() + piece =~= done.flatten());
    }
}

/// A list with one more text flattens to what it did, and the text.
proof fn lemma_flatten_push(v: Seq<Seq<char>>, t: Seq<char>)
    ensures
        v.push(t).flatten() == v.flatten() + t,
{
    v.lemma_flatten_push(t);
}

/// What the scan for words has seen.
proof fn lemma_word_scan(s: Seq<char>)
    ensures
        ({
            let (done, piece) = word_scan(s);
            &&& forall|i: int| 0 <= i < done.len() ==> (#[trigger] done[i]).len() > 0
            &&& forall|i: int, k: int|
                0 <= i < done.len() && 0 <= k < done[i].len() ==> !crate::text::is_white(
                    #[trigger] done[i][k],
                )
            &&& forall|k: int| 0 <= k < piece.len() ==> !crate::text::is_white(#[trigger] piece[k])
            &&& done.flatten() + piece == s.filter(|c: char| !crate::text::is_white(c))
        }),
    decreases s.len(),
{
    let keep = |c: char| !crate::text::is_white(c);
    reveal(Seq::filter);
    if s.len() == 0 {
        assert(Seq::<Seq<char>>::empty().flatten() + Seq::<char>::empty() =~= s.filter(keep));
    } else {
        lemma_word_scan(s.drop_last());
        let (done, piece) = word_scan(s.drop_last());
        let (now, last) = word_scan(s);
        if keep(s.last()) {
            assert(now.flatten() + last =~= (done.flatten() + piece).push(s.last()));
        } else if piece.len() > 0 {
            lemma_flatten_push(done, piece);
            assert(now.flatten() + last =~= done.flatten() + piece);
        } else {
            assert(now.flatten() + last =~= done.flatten() + piece);
        }
    }
}

/// A word ends at white space and only there: a text and a text after white
/// space have the words of both.
pub proof fn law_words_part_at_space(a: Seq<char>, c: char, b: Seq<char>)
    requires
        crate::text::is_white(c),
    ensures
        words(a.push(c) + b) == words(a) + words(b),
    decreases b.len(),
{
    let head = a.push(c);
    assert(head.drop_last() == a);
    assert(word_scan(head) == (words(a), Seq::<char>::empty()));
    lemma_scan_after(head, b);
}

/// A scan that goes on after a finished word.
proof fn lemma_scan_after(head: Seq<char>, b: Seq<char>)
    requires
        word_scan(head).1.len() == 0,
    ensures
        word_scan(head + b) == (word_scan(head).0 + word_scan(b).0, word_scan(b).1),
        words(head + b) == word_scan(head).0 + words(b),
    decreases b.len(),
{
    let done = word_scan(head).0;
    if b.len() == 0 {
        assert(head + b =~= head);
        assert(done + word_scan(b).0 =~= done);
        assert(word_scan(head).1 =~= word_scan(b).1);
        assert(words(head + b) =~= done + words(b));
    } else {
        lemma_scan_after(head, b.drop_last());
        let whole = head + b;
        assert(whole.drop_last() =~= head + b.drop_last());
        assert(whole.last() == b.last());
        let (d, p) = word_scan(b.drop_last());
        if crate::text::is_white(b.last()) && p.len() > 0 {
            assert((done + d).push(p) =~= done + d.push(p));
        }
        let (e, q) = word_scan(b);
        if q.len() > 0 {
            assert((done + e).push(q) =~= done + e.push(q));
        }
    }
}

/// A raw text sets a property in its kind: a flag by the words that mean yes, a
/// number by its literal, a color by the literals of its first four words, a
/// selection by the text without white space around it, and a text as it is.
/// What is no literal where one is asked for sets nothing.
pub proof fn law_override_by_kind(current: PropertyView, raw: Seq<char>)
    ensures
        current is Bool ==> override_of(current, raw) == Some(
            OverrideView::Bool(
                crate::text::trimmed(raw) == "1"@ || crate::text::trimmed(raw) == "true"@
                    || crate::text::trimmed(raw) == "True"@ || crate::text::trimmed(raw)
                    == "TRUE"@,
            ),
        ),
        current is Number && crate::literal::is_float_literal(crate::text::trimmed(raw))
            ==> override_of(current, raw) == Some(OverrideView::Number(crate::text::trimmed(raw))),
        current is Number && !crate::literal::is_float_literal(crate::text::trimmed(raw))
            ==> override_of(current, raw) is None,
        current is Combo ==> override_of(current, raw) == Some(
            OverrideView::Combo(crate::text::trimmed(raw)),
        ),
        current is Text ==> override_of(current, raw) == Some(OverrideView::Text(raw)),
        current is Color && words(raw).len() == 0 ==> override_of(current, raw) is None,
        current is Color && override_of(current, raw) is None && words(raw).len() > 0 ==> exists|
            i: int,
        |
            0 <= i < words(raw).len() && i < 4 && !crate::literal::is_float_literal(
                #[trigger] words(raw)[i],
            ),
        current is Color && override_of(current, raw) is Some ==> {
            let o = override_of(current, raw)->0;
            &&& o is Color
            &&& o->Color_0.len() == (if words(raw).len() < 4 {
                words(raw).len()
            } else {
                4
            })
            &&& forall|i: int|
                0 <= i < o->Color_0.len() ==> #[trigger] o->Color_0[i] == words(raw)[i]
            &&& forall|i: int|
                0 <= i < o->Color_0.len() ==> crate::literal::is_float_literal(
                    #[trigger] words(raw)[i],
                )
        },
{
    if current is Color {
        let c = channel_words(raw);
        assert forall|i: int| 0 <= i < c.len() implies #[trigger] c[i] == words(raw)[i] by {}
        if override_of(current, raw) is None && words(raw).len() > 0 {
            let i = choose|i: int| 0 <= i < c.len() && !crate::literal::is_float_literal(#[trigger] c[i]);
            assert(!crate::literal::is_float_literal(words(raw)[i]));
        }
        if override_of(current, raw) is Some {
            assert forall|i: int| 0 <= i < c.len() implies crate::literal::is_float_literal(
                #[trigger] words(raw)[i],
            ) by {
                assert(c[i] == words(raw)[i]);
            }
        }
    }
}

/// A raw text applies where its name is declared and it parses; then the property
/// is what it stands for, of the kind that it was, and no other changes. Else
/// nothing does.
pub proof fn law_set_from_text<F: Fn(Override) -> PropertyValue>(
    bag: &mut PropertyBag,
    name: &str,
    raw: &str,
    read: F,
    r: bool,
)
    requires
        old(bag).wf(),
        reads_overrides(read),
        call_ensures(PropertyBag::set_from_str, (bag, name, raw, read), r),
    ensures
        r == (old(bag)@.dom().contains(name@) && override_of(old(bag)@[name@], raw@) is Some),
        !r ==> final(bag)@ == old(bag)@,
        final(bag)@.dom() == old(bag)@.dom(),
        forall|k: Seq<char>|
            old(bag)@.dom().contains(k) && k != name@ ==> #[trigger] final(bag)@[k] == old(bag)@[k],
        r ==> stands_for(override_of(old(bag)@[name@], raw@)->0, final(bag)@[name@]),
{
}

/// What a raw text is read as stands for it: a flag is that flag, a selection and
/// a text are the text, a number is some number, and a color has its channels,
/// zero where they are left out but for an opaque alpha.
pub proof fn law_values_stand_for_texts(o: OverrideView, v: PropertyView)
    requires
        stands_for(o, v),
    ensures
        o matches OverrideView::Bool(b) ==> v == PropertyView::Bool(b),
        o matches OverrideView::Combo(t) ==> v is Combo && v->Combo_0.text == t,
        o matches OverrideView::Text(t) ==> v is Text && v->Text_0.text == t,
        o is Number ==> v is Number,
        o matches OverrideView::Color(c) ==> v is Color && v->Color_0.len() == 4,
        o matches OverrideView::Color(c) ==> c.len() <= 3 ==> v->Color_0[3].single == 0x3f80_0000,
        o matches OverrideView::Color(c) ==> forall|i: int|
            c.len() <= i < 3 ==> (#[trigger] v->Color_0[i]).single == 0,
{
}

} // verus!
