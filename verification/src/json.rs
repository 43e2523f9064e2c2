//! JSON documents as plain values, read with `serde_json`.
use vstd::prelude::*;

use crate::text::same;

verus! {

/// A JSON number: an integer, or a finite double held by its bit pattern
/// together with the text it prints as.
#[derive(Debug)]
pub enum Number {
    /// An integer from zero up.
    PosInt(u64),
    /// A negative integer.
    NegInt(i64),
    /// Any other number.
    Float {
        /// The bit pattern of the double.
        bits: u64,
        /// The number as JSON text.
        text: String,
    },
}

/// A JSON value.
#[derive(Debug)]
pub enum Json {
    /// `null`.
    Null,
    /// `true` or `false`.
    Bool(bool),
    /// A number.
    Number(Number),
    /// A string.
    String(String),
    /// An array.
    Array(Vec<Json>),
    /// An object.
    Object(Members),
}

/// The members of a JSON object.
#[derive(Debug)]
pub struct Members {
    /// Name and value of each member.
    pub entries: Vec<(String, Json)>,
}

/// What a [`Number`] holds.
pub enum NumberView {
    /// An integer from zero up.
    PosInt(u64),
    /// A negative integer.
    NegInt(i64),
    /// Any other number.
    Float {
        /// The bit pattern of the double.
        bits: u64,
        /// The number as JSON text.
        text: Seq<char>,
    },
}

/// What a [`Json`] holds.
pub enum JsonView {
    /// `null`.
    Null,
    /// `true` or `false`.
    Bool(bool),
    /// A number.
    Number(NumberView),
    /// A string.
    String(Seq<char>),
    /// An array.
    Array(Seq<JsonView>),
    /// An object.
    Object(Seq<(Seq<char>, JsonView)>),
}

impl View for Number {
    type V = NumberView;

    open spec fn view(&self) -> NumberView {
        match self {
            Number::PosInt(u) => NumberView::PosInt(*u),
            Number::NegInt(i) => NumberView::NegInt(*i),
            Number::Float { bits, text } => NumberView::Float { bits: *bits, text: text@ },
        }
    }
}

impl View for Json {
    type V = JsonView;

    open spec fn view(&self) -> JsonView
        decreases self,
    {
        match self {
            Json::Null => JsonView::Null,
            Json::Bool(b) => JsonView::Bool(*b),
            Json::Number(n) => JsonView::Number(n@),
            Json::String(s) => JsonView::String(s@),
            Json::Array(a) => JsonView::Array(
                Seq::new(
                    a@.len(),
                    |i: int| if 0 <= i < a@.len() { a@[i].view() } else { JsonView::Null },
                ),
            ),
            Json::Object(m) => JsonView::Object(m.view()),
        }
    }
}

impl View for Members {
    type V = Seq<(Seq<char>, JsonView)>;

    open spec fn view(&self) -> Seq<(Seq<char>, JsonView)>
        decreases self,
    {
        Seq::new(
            self.entries@.len(),
            |i: int|
                (
                    self.entries@[i].0@,
                    if 0 <= i < self.entries@.len() { self.entries@[i].1.view() } else { JsonView::Null },
                ),
        )
    }
}

/// The views of a list of values.
pub open spec fn views(v: Seq<Json>) -> Seq<JsonView> {
    Seq::new(v.len(), |i: int| v[i]@)
}

/// An array shows the views of its elements.
pub proof fn lemma_array_view(a: Vec<Json>)
    ensures
        Json::Array(a)@ == JsonView::Array(views(a@)),
{
    let j = Json::Array(a);
    reveal_with_fuel(<Json as View>::view, 2);
    assert(j@->Array_0 =~= views(a@));
}

/// An object shows its members.
pub proof fn lemma_object_view(m: Members)
    ensures
        Json::Object(m)@ == JsonView::Object(m@),
        m@.len() == m.entries@.len(),
        forall|i: int|
            0 <= i < m@.len() ==> (#[trigger] m@[i]).0 == m.entries@[i].0@ && m@[i].1
                == m.entries@[i].1@,
{
    reveal_with_fuel(<Json as View>::view, 2);
    reveal_with_fuel(<Members as View>::view, 2);
}

/// The member called `key`: the last one of that name.
pub open spec fn member(o: Seq<(Seq<char>, JsonView)>, key: Seq<char>) -> Option<JsonView>
    decreases o.len(),
{
    if o.len() == 0 {
        None
    } else if o.last().0 == key {
        Some(o.last().1)
    } else {
        member(o.drop_last(), key)
    }
}

/// The member `key` of an object, nothing for any other value.
pub open spec fn field(v: JsonView, key: Seq<char>) -> Option<JsonView> {
    match v {
        JsonView::Object(o) => member(o, key),
        _ => None,
    }
}

/// The text of a string value.
pub open spec fn text_of(v: Option<JsonView>) -> Option<Seq<char>> {
    match v {
        Some(JsonView::String(s)) => Some(s),
        _ => None,
    }
}

/// The elements of an array, none for any other value.
pub open spec fn elements(v: Option<JsonView>) -> Seq<JsonView> {
    match v {
        Some(JsonView::Array(a)) => a,
        _ => Seq::empty(),
    }
}

/// The members of an object value.
pub open spec fn object_of(v: Option<JsonView>) -> Option<Seq<(Seq<char>, JsonView)>> {
    match v {
        Some(JsonView::Object(o)) => Some(o),
        _ => None,
    }
}

/// The value an optional reference points at.
pub open spec fn shown(v: Option<&Json>) -> Option<JsonView> {
    match v {
        Some(j) => Some(j@),
        None => None,
    }
}

/// A [`serde_json::Value`].
#[verifier::external_type_specification]
#[verifier::external_body]
pub struct ExValue(serde_json::Value);

/// What a [`serde_json::Value`] holds.
pub uninterp spec fn json_tree(v: serde_json::Value) -> JsonView;

/// What `serde_json::from_slice` makes of a text: a value, or the message of
/// its error.
pub uninterp spec fn json_parsed(bytes: Seq<u8>) -> Result<JsonView, Seq<char>>;

/// The JSON string literal that `serde_json::to_string` writes for a string.
pub uninterp spec fn json_quoted(s: Seq<char>) -> Seq<char>;

/// One level of a [`serde_json::Value`].
pub enum Node<'a> {
    /// `null`.
    Null,
    /// `true` or `false`.
    Bool(bool),
    /// A number.
    Number(Number),
    /// A string.
    String(&'a str),
    /// The elements of an array.
    Array(&'a Vec<serde_json::Value>),
    /// The members of an object.
    Object(Vec<(&'a String, &'a serde_json::Value)>),
}

/// `serde_json::from_slice` reads `bytes` as one JSON value. Its result, or
/// the text of its error, depends on the bytes alone and has the name
/// [`json_parsed`].
#[verifier::external_body]
fn read_value(bytes: &[u8]) -> (r: Result<serde_json::Value, String>)
    ensures
        match r {
            Ok(v) => json_parsed(bytes@) == Ok::<JsonView, Seq<char>>(json_tree(v)),
            Err(e) => json_parsed(bytes@) == Err::<JsonView, Seq<char>>(e@),
        },
{
    serde_json::from_slice::<serde_json::Value>(bytes).map_err(|e| e.to_string())
}

/// The variant of a `serde_json::Value` with what it holds, one level deep. A
/// number is an unsigned integer, else a negative one, else a finite double.
#[verifier::external_body]
fn inspect<'a>(v: &'a serde_json::Value) -> (r: Node<'a>)
    ensures
        match r {
            Node::Null => json_tree(*v) == JsonView::Null,
            Node::Bool(b) => json_tree(*v) == JsonView::Bool(b),
            Node::Number(n) => json_tree(*v) == JsonView::Number(n@),
            Node::String(s) => json_tree(*v) == JsonView::String(s@),
            Node::Array(a) => json_tree(*v) == JsonView::Array(
                Seq::new(a@.len(), |i: int| json_tree(a@[i])),
            ),
            Node::Object(o) => json_tree(*v) == JsonView::Object(
                Seq::new(o@.len(), |i: int| (o@[i].0@, json_tree(*o@[i].1))),
            ),
        },
{
    match v {
        serde_json::Value::Null => Node::Null,
        serde_json::Value::Bool(b) => Node::Bool(*b),
        serde_json::Value::Number(n) => Node::Number(match (n.as_u64(), n.as_i64(), n.as_f64()) {
            (Some(u), _, _) => Number::PosInt(u),
            (_, Some(i), _) => Number::NegInt(i),
            (_, _, f) => Number::Float { bits: f.unwrap_or_default().to_bits(), text: n.to_string() },
        }),
        serde_json::Value::String(s) => Node::String(s),
        serde_json::Value::Array(a) => Node::Array(a),
        serde_json::Value::Object(o) => Node::Object(o.iter().collect()),
    }
}

/// `serde_json::to_string` of a string: the string as a JSON literal, a
/// function of its characters that has the name [`json_quoted`].
#[verifier::external_body]
fn quote(s: &str) -> (r: String)
    ensures
        r@ == json_quoted(s@),
{
    serde_json::to_string(s).unwrap_or_default()
}

/// The decimal digits of `n`.
pub open spec fn decimal(n: nat) -> Seq<char>
    decreases n,
{
    let digit = ('0' as u32 + n % 10) as char;
    if n < 10 {
        seq![digit]
    } else {
        decimal(n / 10).push(digit)
    }
}

/// The decimal text of an integer.
pub open spec fn decimal_int(i: int) -> Seq<char> {
    if i < 0 {
        seq!['-'] + decimal((-i) as nat)
    } else {
        decimal(i as nat)
    }
}

/// The decimal digits of `n`.
pub fn decimal_text(n: u64) -> (out: String)
    ensures
        out@ == decimal(n as nat),
    decreases n,
{
    let d: u8 = (n % 10) as u8;
    let digit: char = (48u8 + d) as char;
    assert(digit == ('0' as u32 + (n as nat) % 10) as char);
    if n < 10 {
        let mut out = String::new();
        out.push(digit);
        assert(out@ == seq![digit]);
        out
    } else {
        let mut out = decimal_text(n / 10);
        out.push(digit);
        out
    }
}

/// The decimal text of an integer.
pub fn decimal_int_text(i: i64) -> (out: String)
    ensures
        out@ == decimal_int(i as int),
{
    if i < 0 {
        let magnitude: u64 = (-(i as i128)) as u64;
        let mut out = String::new();
        out.push('-');
        assert(out@ == seq!['-']);
        let digits = decimal_text(magnitude);
        out.append(digits.as_str());
        out
    } else {
        decimal_text(i as u64)
    }
}

/// The JSON text of a number.
pub open spec fn number_text(n: NumberView) -> Seq<char> {
    match n {
        NumberView::PosInt(u) => decimal(u as nat),
        NumberView::NegInt(i) => decimal_int(i as int),
        NumberView::Float { bits: _, text } => text,
    }
}

/// The compact JSON text of a value.
pub open spec fn rendered(v: JsonView) -> Seq<char>
    decreases
        v,
        match v {
            JsonView::Array(a) => a.len() + 1,
            JsonView::Object(o) => o.len() + 1,
            _ => 0,
        },
{
    match v {
        JsonView::Null => "null"@,
        JsonView::Bool(b) => if b { "true"@ } else { "false"@ },
        JsonView::Number(n) => number_text(n),
        JsonView::String(s) => json_quoted(s),
        JsonView::Array(a) => rendered_elements(v, a.len()).push(']'),
        JsonView::Object(o) => rendered_members(v, o.len()).push('}'),
    }
}

/// The opening bracket and the first `n` elements of an array.
pub open spec fn rendered_elements(v: JsonView, n: nat) -> Seq<char>
    decreases v, n,
{
    if v is Array && 0 < n <= v->Array_0.len() {
        let before = rendered_elements(v, (n - 1) as nat);
        let lead = if n == 1 { before } else { before.push(',') };
        lead + rendered(v->Array_0[n - 1])
    } else {
        seq!['[']
    }
}

/// The opening brace and the first `n` members of an object.
pub open spec fn rendered_members(v: JsonView, n: nat) -> Seq<char>
    decreases v, n,
{
    if v is Object && 0 < n <= v->Object_0.len() {
        let before = rendered_members(v, (n - 1) as nat);
        let lead = if n == 1 { before } else { before.push(',') };
        (lead + json_quoted(v->Object_0[n - 1].0)).push(':') + rendered(v->Object_0[n - 1].1)
    } else {
        seq!['{']
    }
}

impl Number {
    /// An equal number.
    pub fn copy(&self) -> (r: Number)
        ensures
            r@ == self@,
    {
        match self {
            Number::PosInt(u) => Number::PosInt(*u),
            Number::NegInt(i) => Number::NegInt(*i),
            Number::Float { bits, text } => Number::Float { bits: *bits, text: text.clone() },
        }
    }

    /// The JSON text of the number.
    pub fn to_text(&self) -> (r: String)
        ensures
            r@ == number_text(self@),
    {
        match self {
            Number::PosInt(u) => decimal_text(*u),
            Number::NegInt(i) => decimal_int_text(*i),
            Number::Float { bits: _, text } => text.clone(),
        }
    }
}

impl Members {
    /// An object without members.
    pub fn new() -> (m: Members)
        ensures
            m@ == Seq::<(Seq<char>, JsonView)>::empty(),
    {
        let m = Members { entries: Vec::new() };
        assert(m@ =~= Seq::<(Seq<char>, JsonView)>::empty());
        m
    }

    /// The member called `key`.
    pub fn get(&self, key: &str) -> (r: Option<&Json>)
        ensures
            shown(r) == member(self@, key@),
    {
        let ghost all = self@;
        proof {
            lemma_object_view(*self);
        }
        let mut n: usize = self.entries.len();
        assert(all.take(n as int) == all);
        while n > 0
            invariant
                n <= self.entries@.len(),
                all == self@,
                all.len() == self.entries@.len(),
                forall|i: int|
                    0 <= i < all.len() ==> (#[trigger] all[i]).0 == self.entries@[i].0@ && all[i].1
                        == self.entries@[i].1@,
                member(all, key@) == member(all.take(n as int), key@),
            decreases n,
        {
            n = n - 1;
            assert(all.take(n as int + 1).last() == all[n as int]);
            assert(all.take(n as int + 1).drop_last() == all.take(n as int));
            if same(self.entries[n].0.as_str(), key) {
                return Some(&self.entries[n].1);
            }
        }
        None
    }

    /// An equal object.
    pub fn copy(&self) -> (r: Members)
        ensures
            r@ == self@,
        decreases self,
    {
        let mut entries: Vec<(String, Json)> = Vec::new();
        let mut i: usize = 0;
        while i < self.entries.len()
            invariant
                i <= self.entries@.len(),
                entries@.len() == i,
                forall|k: int|
                    0 <= k < i ==> (#[trigger] entries@[k]).0@ == self.entries@[k].0@ && entries@[k].1@
                        == self.entries@[k].1@,
            decreases self.entries@.len() - i,
        {
            let name = self.entries[i].0.clone();
            let value = self.entries[i].1.copy();
            entries.push((name, value));
            i = i + 1;
        }
        let r = Members { entries };
        proof {
            lemma_object_view(*self);
            lemma_object_view(r);
            assert(r@ =~= self@);
        }
        r
    }
}

impl Json {
    /// Read a JSON document.
    pub fn from_slice(bytes: &[u8]) -> (r: Result<Json, String>)
        ensures
            match r {
                Ok(j) => json_parsed(bytes@) == Ok::<JsonView, Seq<char>>(j@),
                Err(e) => json_parsed(bytes@) == Err::<JsonView, Seq<char>>(e@),
            },
    {
        match read_value(bytes) {
            Ok(v) => Ok(Json::of_value(&v)),
            Err(e) => Err(e),
        }
    }

    /// The value as a plain tree.
    fn of_value(v: &serde_json::Value) -> (r: Json)
        ensures
            r@ == json_tree(*v),
        decreases json_tree(*v),
    {
        let ghost tree = json_tree(*v);
        match inspect(v) {
            Node::Null => Json::Null,
            Node::Bool(b) => Json::Bool(b),
            Node::Number(n) => Json::Number(n),
            Node::String(s) => Json::String(s.to_owned()),
            Node::Array(a) => {
                let mut out: Vec<Json> = Vec::new();
                let mut i: usize = 0;
                while i < a.len()
                    invariant
                        i <= a.len(),
                        out@.len() == i,
                        tree == json_tree(*v),
                        tree == JsonView::Array(Seq::new(a@.len(), |i: int| json_tree(a@[i]))),
                        forall|k: int| 0 <= k < i ==> (#[trigger] out@[k])@ == json_tree(a@[k]),
                    decreases a.len() - i,
                {
                    assert(tree->Array_0[i as int] == json_tree(a@[i as int]));
                    assert(decreases_to!(tree => tree->Array_0[i as int]));
                    out.push(Json::of_value(&a[i]));
                    i = i + 1;
                }
                proof {
                    lemma_array_view(out);
                    assert(views(out@) =~= tree->Array_0);
                }
                Json::Array(out)
            },
            Node::Object(o) => {
                let mut entries: Vec<(String, Json)> = Vec::new();
                let mut i: usize = 0;
                while i < o.len()
                    invariant
                        i <= o.len(),
                        entries@.len() == i,
                        tree == json_tree(*v),
                        tree == JsonView::Object(
                            Seq::new(o@.len(), |i: int| (o@[i].0@, json_tree(*o@[i].1))),
                        ),
                        forall|k: int|
                            0 <= k < i ==> (#[trigger] entries@[k]).0@ == o@[k].0@ && entries@[k].1@
                                == json_tree(*o@[k].1),
                    decreases o.len() - i,
                {
                    assert(tree->Object_0[i as int] == (o@[i as int].0@, json_tree(*o@[i as int].1)));
                    assert(decreases_to!(tree => tree->Object_0[i as int].1));
                    let value = Json::of_value(o[i].1);
                    entries.push((o[i].0.clone(), value));
                    i = i + 1;
                }
                let m = Members { entries };
                proof {
                    lemma_object_view(m);
                    assert(m@ =~= tree->Object_0);
                }
                Json::Object(m)
            },
        }
    }

    /// The member `key`, when this is an object that has it.
    pub fn get(&self, key: &str) -> (r: Option<&Json>)
        ensures
            shown(r) == field(self@, key@),
    {
        match self {
            Json::Object(m) => {
                proof {
                    lemma_object_view(*m);
                }
                m.get(key)
            },
            _ => None,
        }
    }

    /// The text of a string.
    pub fn as_str(&self) -> (r: Option<&str>)
        ensures
            match r {
                Some(s) => text_of(Some(self@)) == Some(s@),
                None => text_of(Some(self@)) is None,
            },
    {
        match self {
            Json::String(s) => Some(s.as_str()),
            _ => None,
        }
    }

    /// An equal value.
    pub fn copy(&self) -> (r: Json)
        ensures
            r@ == self@,
        decreases self,
    {
        match self {
            Json::Null => Json::Null,
            Json::Bool(b) => Json::Bool(*b),
            Json::Number(n) => Json::Number(n.copy()),
            Json::String(s) => Json::String(s.clone()),
            Json::Array(a) => {
                let mut out: Vec<Json> = Vec::new();
                let mut i: usize = 0;
                while i < a.len()
                    invariant
                        i <= a@.len(),
                        out@.len() == i,
                        self is Array,
                        self->Array_0 == *a,
                        forall|k: int| 0 <= k < i ==> (#[trigger] out@[k])@ == a@[k]@,
                    decreases a@.len() - i,
                {
                    out.push(a[i].copy());
                    i = i + 1;
                }
                proof {
                    lemma_array_view(*a);
                    lemma_array_view(out);
                    assert(views(out@) =~= views(a@));
                }
                Json::Array(out)
            },
            Json::Object(m) => {
                let r = m.copy();
                proof {
                    lemma_object_view(*m);
                    lemma_object_view(r);
                }
                Json::Object(r)
            },
        }
    }

    /// The compact JSON text of the value.
    pub fn render(&self) -> (r: String)
        ensures
            r@ == rendered(self@),
        decreases self,
    {
        match self {
            Json::Null => "null".to_owned(),
            Json::Bool(b) => if *b {
                "true".to_owned()
            } else {
                "false".to_owned()
            },
            Json::Number(n) => n.to_text(),
            Json::String(s) => quote(s.as_str()),
            Json::Array(a) => {
                let mut out = "[".to_owned();
                let mut i: usize = 0;
                proof {
                    reveal_strlit("[");
                    assert("["@ == seq!['[']);
                    lemma_array_view(*a);
                }
                while i < a.len()
                    invariant
                        i <= a@.len(),
                        self is Array,
                        self->Array_0 == *a,
                        self@ is Array,
                        self@->Array_0 == views(a@),
                        out@ == rendered_elements(self@, i as nat),
                    decreases a@.len() - i,
                {
                    if i > 0 {
                        out.push(',');
                    }
                    assert(self@->Array_0[i as int] == a@[i as int]@);
                    let element = a[i].render();
                    out.append(element.as_str());
                    i = i + 1;
                }
                out.push(']');
                out
            },
            Json::Object(m) => {
                let mut out = "{".to_owned();
                let mut i: usize = 0;
                proof {
                    reveal_strlit("{");
                    assert("{"@ == seq!['{']);
                    lemma_object_view(*m);
                }
                while i < m.entries.len()
                    invariant
                        i <= m.entries@.len(),
                        self is Object,
                        self->Object_0 == *m,
                        self@ is Object,
                        self@->Object_0 == m@,
                        m@.len() == m.entries@.len(),
                        forall|i: int|
                            0 <= i < m@.len() ==> (#[trigger] m@[i]).0 == m.entries@[i].0@ && m@[i].1
                                == m.entries@[i].1@,
                        out@ == rendered_members(self@, i as nat),
                    decreases m.entries@.len() - i,
                {
                    if i > 0 {
                        out.push(',');
                    }
                    assert(self@->Object_0[i as int].0 == m.entries@[i as int].0@);
                    assert(self@->Object_0[i as int].1 == m.entries@[i as int].1@);
                    let name = quote(m.entries[i].0.as_str());
                    let value = m.entries[i].1.render();
                    out.append(name.as_str());
                    out.push(':');
                    out.append(value.as_str());
                    i = i + 1;
                }
                out.push('}');
                out
            },
        }
    }
}

/// The digits of a number read as that number, there is at least one, and none
/// is a leading zero but that of zero itself.
pub proof fn law_decimal_reads_back(n: nat)
    ensures
        decimal(n).len() > 0,
        crate::literal::all_digits(decimal(n)),
        crate::literal::digits_value(decimal(n)) == n,
        n > 0 ==> decimal(n)[0] != '0',
        n >= 10 ==> decimal(n).len() > 1,
        n < 10 ==> decimal(n).len() == 1,
    decreases n,
{
    let d = decimal(n);
    if n < 10 {
        assert(d.drop_last() =~= Seq::<char>::empty());
        assert(crate::literal::digits_value(Seq::<char>::empty()) == 0);
    } else {
        law_decimal_reads_back(n / 10);
        assert(d.drop_last() =~= decimal(n / 10));
        assert forall|i: int| 0 <= i < d.len() implies crate::literal::is_digit(#[trigger] d[i]) by {
            if i < d.len() - 1 {
                assert(d[i] == decimal(n / 10)[i]);
            }
        }
        assert(d[0] == decimal(n / 10)[0]);
    }
}

/// The digits of an integer read as that integer.
pub proof fn law_integer_reads_back(i: i64)
    ensures
        crate::literal::leading_int(decimal_int(i as int)) == i,
        crate::literal::read_int(decimal_int(i as int)) == i,
{
    let n = if i < 0 {
        (-i) as nat
    } else {
        i as nat
    };
    law_decimal_reads_back(n);
    crate::literal::law_digits_read_as_number(decimal(n), Seq::empty());
    assert(decimal(n) + Seq::<char>::empty() =~= decimal(n));
    assert(seq!['-'] + decimal(n) + Seq::<char>::empty() =~= seq!['-'] + decimal(n));
}

/// A number is written as its digits or as it was written, the other plain values
/// as their words, and lists in brackets with commas between their entries.
pub proof fn law_rendered_forms(a: JsonView, b: JsonView, k: Seq<char>, l: Seq<char>)
    ensures
        rendered(JsonView::Null) == "null"@,
        rendered(JsonView::Bool(true)) == "true"@,
        rendered(JsonView::Bool(false)) == "false"@,
        a matches JsonView::String(s) ==> rendered(a) == json_quoted(s),
        a matches JsonView::Number(NumberView::PosInt(u)) ==> rendered(a) == decimal(u as nat),
        a matches JsonView::Number(NumberView::NegInt(i)) ==> rendered(a) == decimal_int(i as int),
        a matches JsonView::Number(NumberView::Float { bits, text }) ==> rendered(a) == text,
        rendered(JsonView::Array(Seq::empty())) == seq!['[', ']'],
        rendered(JsonView::Array(seq![a])) == seq!['['] + rendered(a) + seq![']'],
        rendered(JsonView::Array(seq![a, b])) == seq!['['] + rendered(a) + seq![','] + rendered(b)
            + seq![']'],
        rendered(JsonView::Object(Seq::empty())) == seq!['{', '}'],
        rendered(JsonView::Object(seq![(k, a), (l, b)])) == seq!['{'] + json_quoted(k) + seq![':']
            + rendered(a) + seq![','] + json_quoted(l) + seq![':'] + rendered(b) + seq!['}'],
{
    let none = JsonView::Array(Seq::empty());
    assert(rendered_elements(none, 0) == seq!['[']);
    assert(rendered(none) =~= seq!['[', ']']);
    let one = JsonView::Array(seq![a]);
    assert(rendered_elements(one, 0) == seq!['[']);
    assert(rendered_elements(one, 1) =~= seq!['['] + rendered(a));
    assert(rendered(one) =~= seq!['['] + rendered(a) + seq![']']);
    let two = JsonView::Array(seq![a, b]);
    assert(rendered_elements(two, 0) == seq!['[']);
    assert(rendered_elements(two, 1) =~= seq!['['] + rendered(a));
    assert(rendered_elements(two, 2) =~= seq!['['] + rendered(a) + seq![','] + rendered(b));
    assert(rendered(two) =~= seq!['['] + rendered(a) + seq![','] + rendered(b) + seq![']']);
    let bare = JsonView::Object(Seq::empty());
    assert(rendered_members(bare, 0) == seq!['{']);
    assert(rendered(bare) =~= seq!['{', '}']);
    let pair = JsonView::Object(seq![(k, a), (l, b)]);
    assert(rendered_members(pair, 0) == seq!['{']);
    assert(rendered_members(pair, 1) =~= seq!['{'] + json_quoted(k) + seq![':'] + rendered(a));
    assert(rendered_members(pair, 2) =~= seq!['{'] + json_quoted(k) + seq![':'] + rendered(a)
        + seq![','] + json_quoted(l) + seq![':'] + rendered(b));
    assert(rendered(pair) =~= seq!['{'] + json_quoted(k) + seq![':'] + rendered(a) + seq![',']
        + json_quoted(l) + seq![':'] + rendered(b) + seq!['}']);
}

} // verus!
