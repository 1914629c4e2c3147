//! JSON values, read and written by `serde_json`.

use vstd::prelude::*;
use vstd::utf8::*;

use crate::ordered_map::{
    ascending, has_key, lemma_ascending_distinct, lemma_entry_in_map, lemma_insides, listed, map_of,
    OrderedMap,
};

verus! {

broadcast use vstd::string::group_string_axioms;

/// A JSON value.
pub enum Json {
    Null,
    Bool(bool),
    /// A whole number from zero up.
    Uint(u64),
    /// A whole number below zero.
    Int(i64),
    /// Any other number, by the text that JSON writes it with.
    Real(String),
    Str(String),
    List(Vec<Json>),
    Object(Fields),
}

/// The fields of a JSON object.
pub struct Fields {
    pub(crate) map: OrderedMap<String, Json>,
}

/// What a JSON value stands for.
#[verifier::ext_equal]
pub enum JsonView {
    Null,
    Bool(bool),
    Uint(u64),
    Int(i64),
    Real(Seq<char>),
    Str(Seq<char>),
    List(Seq<JsonView>),
    Object(Map<Seq<char>, JsonView>),
}

/// What a JSON value stands for.
pub open spec fn json_view(j: Json) -> JsonView
    decreases j,
{
    match j {
        Json::Null => JsonView::Null,
        Json::Bool(b) => JsonView::Bool(b),
        Json::Uint(n) => JsonView::Uint(n),
        Json::Int(n) => JsonView::Int(n),
        Json::Real(s) => JsonView::Real(s@),
        Json::Str(s) => JsonView::Str(s@),
        Json::List(v) => JsonView::List(list_view(v@)),
        Json::Object(f) => JsonView::Object(object_view(f)),
    }
}

/// What the elements of a list stand for.
pub open spec fn list_view(s: Seq<Json>) -> Seq<JsonView>
    decreases s,
{
    if s.len() == 0 {
        Seq::empty()
    } else {
        list_view(s.drop_last()).push(json_view(s.last()))
    }
}

/// What the fields of an object stand for.
pub closed spec fn object_view(f: Fields) -> Map<Seq<char>, JsonView>
    decreases f,
{
    entries_view(f.map.entries@)
}

closed spec fn entries_view(s: Seq<(String, Json)>) -> Map<Seq<char>, JsonView>
    decreases s,
{
    if s.len() == 0 {
        Map::empty()
    } else {
        entries_view(s.drop_last()).insert(s.last().0@, json_view(s.last().1))
    }
}

impl View for Json {
    type V = JsonView;

    open spec fn view(&self) -> JsonView {
        json_view(*self)
    }
}

impl View for Fields {
    type V = Map<Seq<char>, JsonView>;

    open spec fn view(&self) -> Map<Seq<char>, JsonView> {
        object_view(*self)
    }
}

/// A list shows its elements one by one.
pub broadcast proof fn lemma_list_view(s: Seq<Json>)
    ensures
        #![trigger list_view(s)]
        list_view(s).len() == s.len(),
        forall|i: int| 0 <= i < s.len() ==> #[trigger] list_view(s)[i] == s[i]@,
    decreases s.len(),
{
    if s.len() > 0 {
        lemma_list_view(s.drop_last());
    }
}

/// A list with one more element shows one more.
pub proof fn lemma_list_view_push(s: Seq<Json>, x: Json)
    ensures
        list_view(s.push(x)) == list_view(s).push(x@),
{
    assert(s.push(x).drop_last() =~= s);
}

proof fn lemma_entries_view(s: Seq<(String, Json)>)
    requires
        ascending(s),
    ensures
        forall|k: Seq<char>| #[trigger] entries_view(s).dom().contains(k) <==> has_key(s, k),
        forall|i: int|
            0 <= i < s.len() ==> entries_view(s)[(#[trigger] s[i]).0@] == json_view(s[i].1),
    decreases s.len(),
{
    if s.len() > 0 {
        let t = s.drop_last();
        assert(ascending(t)) by {
            assert(forall|i: int| 0 <= i < t.len() ==> t[i] == s[i]);
        }
        lemma_entries_view(t);
        assert forall|k: Seq<char>| #[trigger] entries_view(s).dom().contains(k) <==> has_key(
            s,
            k,
        ) by {
            if has_key(s, k) {
                let i = choose|i: int| 0 <= i < s.len() && (#[trigger] s[i]).0@ == k;
                if i < t.len() {
                    assert(t[i].0@ == k);
                    assert(has_key(t, k));
                }
            }
            if has_key(t, k) {
                let i = choose|i: int| 0 <= i < t.len() && (#[trigger] t[i]).0@ == k;
                assert(s[i].0@ == k);
            }
            if k == s.last().0@ {
                assert(s[s.len() - 1].0@ == k);
            }
        }
        assert forall|i: int| 0 <= i < s.len() implies entries_view(s)[(#[trigger] s[i]).0@]
            == json_view(s[i].1) by {
            if i < t.len() {
                assert(t[i] == s[i]);
                if s[i].0@ == s.last().0@ {
                    lemma_ascending_distinct(s, i, s.len() - 1);
                }
            }
        }
    }
}

/// The view of the fields follows the map that holds them.
proof fn lemma_object_view(s: Seq<(String, Json)>)
    requires
        ascending(s),
    ensures
        entries_view(s) == map_of(s).map_values(|j: Json| j@),
{
    lemma_entries_view(s);
    let m = map_of(s).map_values(|j: Json| j@);
    assert forall|k: Seq<char>| entries_view(s).dom().contains(k) implies #[trigger] entries_view(
        s,
    )[k] == m[k] by {
        assert(has_key(s, k));
        let i = choose|i: int| 0 <= i < s.len() && (#[trigger] s[i]).0@ == k;
        lemma_entry_in_map(s, i);
    }
    assert(entries_view(s).dom() =~= m.dom());
    assert(entries_view(s) =~= m);
}

impl Fields {
    /// No fields.
    pub fn new() -> (r: Fields)
        ensures
            r@ == Map::<Seq<char>, JsonView>::empty(),
    {
        let map = OrderedMap::<String, Json>::new();
        proof {
            use_type_invariant(&map);
            lemma_insides(&map);
            lemma_object_view(map.entries@);
        }
        let r = Fields { map };
        assert(r@ =~= Map::<Seq<char>, JsonView>::empty());
        r
    }

    /// Gives a field a value, over the one it may have had.
    pub fn set(&mut self, name: String, value: Json)
        ensures
            final(self)@ == old(self)@.insert(name@, value@),
    {
        proof {
            use_type_invariant(&self.map);
            lemma_insides(&self.map);
            lemma_object_view(self.map.entries@);
        }
        let ghost before = self.map@;
        self.map.insert(name, value);
        proof {
            use_type_invariant(&self.map);
            lemma_insides(&self.map);
            lemma_object_view(self.map.entries@);
            assert(self.map@.map_values(|j: Json| j@) =~= before.map_values(
                |j: Json| j@,
            ).insert(name@, value@));
        }
    }

    /// Gives a field a value, over the one it may have had.
    pub fn put(&mut self, name: &str, value: Json)
        ensures
            final(self)@ == old(self)@.insert(name@, value@),
    {
        self.set(name.to_owned(), value);
    }

    /// The value of a field.
    pub fn get(&self, name: &str) -> (r: Option<&Json>)
        ensures
            match r {
                Some(v) => self@.dom().contains(name@) && self@[name@] == v@,
                None => !self@.dom().contains(name@),
            },
    {
        proof {
            use_type_invariant(&self.map);
            lemma_insides(&self.map);
            lemma_object_view(self.map.entries@);
        }
        self.map.get(&name.to_owned())
    }

    /// The names of the fields, in order.
    pub closed spec fn names(&self) -> Seq<Seq<char>> {
        self.map.keys()
    }

    /// How many fields there are. Each name stands once among the names, in
    /// order, and nothing else does.
    pub fn len(&self) -> (n: usize)
        ensures
            n == self.names().len(),
            forall|k: Seq<char>| self@.dom().contains(k) <==> self.names().contains(k),
            self.names().no_duplicates(),
            self.names() == listed::<String>(self@.dom()),
    {
        proof {
            use_type_invariant(&self.map);
            lemma_insides(&self.map);
            lemma_object_view(self.map.entries@);
        }
        let n = self.map.len();
        proof {
            assert forall|i: int, j: int|
                0 <= i < self.names().len() && 0 <= j < self.names().len() && i
                    != j implies self.names()[i] != self.names()[j] by {
                if self.names()[i] == self.names()[j] {
                    assert(self.map.entries@[i].0@ == self.names()[i]);
                    assert(self.map.entries@[j].0@ == self.names()[j]);
                    lemma_ascending_distinct(self.map.entries@, i, j);
                }
            }
            assert(self@.dom() =~= self.map@.dom());
        }
        n
    }

    /// The name and the value of a field, by its position.
    pub fn at(&self, i: usize) -> (r: (&String, &Json))
        requires
            i < self.names().len(),
        ensures
            r.0@ == self.names()[i as int],
            self@.dom().contains(r.0@),
            self@[r.0@] == r.1@,
    {
        proof {
            use_type_invariant(&self.map);
            lemma_insides(&self.map);
            lemma_object_view(self.map.entries@);
        }
        (self.map.key_at(i), self.map.value_at(i))
    }

    /// A copy of the fields.
    pub fn copy(&self) -> (r: Fields)
        ensures
            r@ == self@,
        decreases self,
    {
        let mut r = Fields::new();
        let n = self.map.entries.len();
        let mut i: usize = 0;
        proof {
            use_type_invariant(&self.map);
            lemma_insides(&self.map);
        }
        while i < n
            invariant
                ascending(self.map.entries@),
                n == self.map.entries@.len(),
                i <= n,
                r@ == entries_view(self.map.entries@.take(i as int)),
            decreases n - i,
        {
            let e = &self.map.entries[i];
            let v = e.1.copy();
            assert(self.map.entries@.take(i + 1).drop_last() =~= self.map.entries@.take(i as int));
            r.set(e.0.clone(), v);
            i = i + 1;
        }
        assert(self.map.entries@.take(n as int) =~= self.map.entries@);
        r
    }
}

/// A copy of a list of values.
pub fn copy_list(v: &Vec<Json>) -> (r: Vec<Json>)
    ensures
        list_view(r@) == list_view(v@),
    decreases v,
{
    let mut r: Vec<Json> = Vec::new();
    let mut i: usize = 0;
    while i < v.len()
        invariant
            i <= v@.len(),
            list_view(r@) == list_view(v@.take(i as int)),
        decreases v@.len() - i,
    {
        let x = v[i].copy();
        proof {
            lemma_list_view_push(r@, x);
            assert(v@.take(i + 1).drop_last() =~= v@.take(i as int));
        }
        r.push(x);
        i = i + 1;
    }
    assert(v@.take(v@.len() as int) =~= v@);
    r
}

impl Json {
    /// A copy of the value.
    pub fn copy(&self) -> (r: Json)
        ensures
            r@ == self@,
        decreases self,
    {
        match self {
            Json::Null => Json::Null,
            Json::Bool(b) => Json::Bool(*b),
            Json::Uint(n) => Json::Uint(*n),
            Json::Int(n) => Json::Int(*n),
            Json::Real(s) => Json::Real(s.clone()),
            Json::Str(s) => Json::Str(s.clone()),
            Json::List(v) => Json::List(copy_list(v)),
            Json::Object(f) => Json::Object(f.copy()),
        }
    }
}

// ---------------------------------------------------------------------------
// Making values

/// A signed number as JSON holds it.
pub open spec fn int_view(n: i64) -> JsonView {
    if n < 0 {
        JsonView::Int(n)
    } else {
        JsonView::Uint(n as u64)
    }
}

/// A signed number, or null.
pub open spec fn opt_int_view(n: Option<i64>) -> JsonView {
    match n {
        Some(n) => int_view(n),
        None => JsonView::Null,
    }
}

/// A text, or null.
pub open spec fn opt_text_view(s: Option<Seq<char>>) -> JsonView {
    match s {
        Some(s) => JsonView::Str(s),
        None => JsonView::Null,
    }
}

/// A number, or null.
pub open spec fn opt_uint_view(n: Option<u64>) -> JsonView {
    match n {
        Some(n) => JsonView::Uint(n),
        None => JsonView::Null,
    }
}

/// The text that a string may hold.
pub open spec fn opt_text(s: Option<String>) -> Option<Seq<char>> {
    match s {
        Some(s) => Some(s@),
        None => None,
    }
}

impl Json {
    /// A text.
    pub fn text(s: &str) -> (r: Json)
        ensures
            r@ == JsonView::Str(s@),
    {
        Json::Str(s.to_owned())
    }

    /// A signed number.
    pub fn whole(n: i64) -> (r: Json)
        ensures
            r@ == int_view(n),
    {
        if n < 0 {
            Json::Int(n)
        } else {
            Json::Uint(n as u64)
        }
    }

    /// A signed number, or null.
    pub fn opt_int(n: Option<i64>) -> (r: Json)
        ensures
            r@ == opt_int_view(n),
    {
        match n {
            Some(n) => Json::whole(n),
            None => Json::Null,
        }
    }

    /// A number, or null.
    pub fn opt_uint(n: Option<u64>) -> (r: Json)
        ensures
            r@ == opt_uint_view(n),
    {
        match n {
            Some(n) => Json::Uint(n),
            None => Json::Null,
        }
    }

    /// A text, or null.
    pub fn opt_text(s: &Option<String>) -> (r: Json)
        ensures
            r@ == opt_text_view(opt_text(*s)),
    {
        match s {
            Some(s) => Json::Str(s.clone()),
            None => Json::Null,
        }
    }
}

// ---------------------------------------------------------------------------
// Looking into values

/// The value of a field, where the value is an object that has the field.
pub open spec fn field(v: JsonView, name: Seq<char>) -> Option<JsonView> {
    match v {
        JsonView::Object(m) if m.dom().contains(name) => Some(m[name]),
        _ => None,
    }
}

/// A field that is a whole number from zero up.
pub open spec fn uint_field(v: JsonView, name: Seq<char>) -> Option<u64> {
    match field(v, name) {
        Some(JsonView::Uint(n)) => Some(n),
        _ => None,
    }
}

/// A field that is a whole number of 64 bits.
pub open spec fn int_field(v: JsonView, name: Seq<char>) -> Option<i64> {
    match field(v, name) {
        Some(JsonView::Uint(n)) if n <= i64::MAX => Some(n as i64),
        Some(JsonView::Int(n)) => Some(n),
        _ => None,
    }
}

/// A field that is a text.
pub open spec fn text_field(v: JsonView, name: Seq<char>) -> Option<Seq<char>> {
    match field(v, name) {
        Some(JsonView::Str(s)) => Some(s),
        _ => None,
    }
}

/// A field that is true or false.
pub open spec fn bool_field(v: JsonView, name: Seq<char>) -> Option<bool> {
    match field(v, name) {
        Some(JsonView::Bool(b)) => Some(b),
        _ => None,
    }
}

/// A field that is a list.
pub open spec fn list_field(v: JsonView, name: Seq<char>) -> Option<Seq<JsonView>> {
    match field(v, name) {
        Some(JsonView::List(s)) => Some(s),
        _ => None,
    }
}

/// A field that is an object.
pub open spec fn object_field(v: JsonView, name: Seq<char>) -> Option<
    Map<Seq<char>, JsonView>,
> {
    match field(v, name) {
        Some(JsonView::Object(m)) => Some(m),
        _ => None,
    }
}

/// An optional value, or the one given for want of it.
pub open spec fn or_else<T>(v: Option<T>, other: T) -> T {
    match v {
        Some(v) => v,
        None => other,
    }
}

impl Json {
    /// The value of a field, where this is an object that has the field.
    pub fn field(&self, name: &str) -> (r: Option<&Json>)
        ensures
            match r {
                Some(v) => field(self@, name@) == Some(v@),
                None => field(self@, name@) is None,
            },
    {
        match self {
            Json::Object(f) => f.get(name),
            _ => None,
        }
    }

    /// A field that is a whole number from zero up.
    pub fn uint_field(&self, name: &str) -> (r: Option<u64>)
        ensures
            r == uint_field(self@, name@),
    {
        match self.field(name) {
            Some(Json::Uint(n)) => Some(*n),
            _ => None,
        }
    }

    /// A field that is a whole number of 64 bits.
    pub fn int_field(&self, name: &str) -> (r: Option<i64>)
        ensures
            r == int_field(self@, name@),
    {
        match self.field(name) {
            Some(Json::Uint(n)) => if *n <= 0x7fff_ffff_ffff_ffff {
                Some(*n as i64)
            } else {
                None
            },
            Some(Json::Int(n)) => Some(*n),
            _ => None,
        }
    }

    /// A field that is a text.
    pub fn text_field(&self, name: &str) -> (r: Option<String>)
        ensures
            opt_text(r) == text_field(self@, name@),
    {
        match self.field(name) {
            Some(Json::Str(s)) => Some(s.clone()),
            _ => None,
        }
    }

    /// A field that is a text, or `other`.
    pub fn text_field_or(&self, name: &str, other: &str) -> (r: String)
        ensures
            r@ == or_else(text_field(self@, name@), other@),
    {
        match self.field(name) {
            Some(Json::Str(s)) => s.clone(),
            _ => other.to_owned(),
        }
    }

    /// A field that is true or false.
    pub fn bool_field(&self, name: &str) -> (r: Option<bool>)
        ensures
            r == bool_field(self@, name@),
    {
        match self.field(name) {
            Some(Json::Bool(b)) => Some(*b),
            _ => None,
        }
    }

    /// A field that is a list.
    pub fn list_field(&self, name: &str) -> (r: Option<&Vec<Json>>)
        ensures
            match r {
                Some(v) => list_field(self@, name@) == Some(list_view(v@)),
                None => list_field(self@, name@) is None,
            },
    {
        match self.field(name) {
            Some(Json::List(v)) => Some(v),
            _ => None,
        }
    }

    /// A field that is an object.
    pub fn object_field(&self, name: &str) -> (r: Option<&Fields>)
        ensures
            match r {
                Some(f) => object_field(self@, name@) == Some(f@),
                None => object_field(self@, name@) is None,
            },
    {
        match self.field(name) {
            Some(Json::Object(f)) => Some(f),
            _ => None,
        }
    }
}

// ---------------------------------------------------------------------------
// Counts

/// Counts by name as JSON.
pub open spec fn counts_object(m: Map<Seq<char>, u64>) -> JsonView {
    JsonView::Object(m.map_values(|n: u64| JsonView::Uint(n)))
}

/// Counts by name as JSON.
pub fn counts_json(m: &OrderedMap<String, u64>) -> (r: Json)
    ensures
        r@ == counts_object(m@),
{
    let n = m.len();
    let ghost names = m.keys();
    let ghost want = m@.map_values(|n: u64| JsonView::Uint(n));
    let mut f = Fields::new();
    let mut i: usize = 0;
    while i < n
        invariant
            i <= n == names.len(),
            names == m.keys(),
            want == m@.map_values(|n: u64| JsonView::Uint(n)),
            forall|k: Seq<char>|
                #[trigger] f@.dom().contains(k) <==> names.take(i as int).contains(k),
            forall|k: Seq<char>| #[trigger]
                f@.dom().contains(k) ==> m@.dom().contains(k) && f@[k] == want[k],
        decreases n - i,
    {
        let name = m.key_at(i).clone();
        let x = *m.value_at(i);
        proof {
            lemma_one_more(names, i as int);
        }
        f.set(name, Json::Uint(x));
        i = i + 1;
    }
    proof {
        assert(names.take(n as int) =~= names);
        assert(f@ =~= want);
    }
    Json::Object(f)
}

/// The names up to one place hold one name more than those before it.
pub proof fn lemma_one_more(names: Seq<Seq<char>>, i: int)
    requires
        0 <= i < names.len(),
    ensures
        forall|k: Seq<char>| #[trigger]
            names.take(i + 1).contains(k) <==> (names.take(i).contains(k) || k == names[i]),
{
    let a = names.take(i);
    let b = names.take(i + 1);
    assert(b =~= a.push(names[i]));
    assert forall|k: Seq<char>| #[trigger] b.contains(k) <==> (a.contains(k) || k == names[i]) by {
        if a.contains(k) {
            let j = choose|j: int| 0 <= j < a.len() && a[j] == k;
            assert(b[j] == k);
        }
        if k == names[i] {
            assert(b[i] == k);
        }
    }
}

// ---------------------------------------------------------------------------
// Reading and writing

/// `serde_json::Value`, which a text is read into and written from.
#[verifier::external_type_specification]
#[verifier::external_body]
pub struct ExValue(serde_json::Value);

/// What `serde_json` reads from bytes, or the text of the error it gives.
pub uninterp spec fn parsed_json(bytes: Seq<u8>) -> Result<JsonView, Seq<char>>;

/// The text `serde_json` writes a value with.
pub uninterp spec fn json_text_of(v: JsonView) -> Seq<char>;

/// What a result of reading stands for.
pub open spec fn read_view(r: Result<Json, String>) -> Result<JsonView, Seq<char>> {
    match r {
        Ok(v) => Ok(v@),
        Err(e) => Err(e@),
    }
}

/// Values that hold no number but whole ones, nested less deeply than
/// `serde_json` refuses to read.
pub open spec fn plain(v: JsonView, depth: nat) -> bool
    decreases depth,
{
    match v {
        JsonView::Real(_) => false,
        JsonView::Int(n) => n < 0,
        JsonView::List(s) => depth > 0 && forall|i: int|
            0 <= i < s.len() ==> plain(#[trigger] s[i], (depth - 1) as nat),
        JsonView::Object(m) => depth > 0 && m.dom().finite() && forall|k: Seq<char>|
            #[trigger] m.dom().contains(k) ==> plain(m[k], (depth - 1) as nat),
        _ => true,
    }
}

/// Whether a text reads as a value.
pub open spec fn reads_as(text: Seq<char>, v: JsonView) -> bool {
    match parsed_json(encode_utf8(text)) {
        Ok(read) => read == v,
        Err(_) => false,
    }
}

/// Turns a `serde_json::Value` into a `Json`, variant by variant.
#[verifier::external_body]
fn json_of(value: serde_json::Value) -> Json {
    match value {
        serde_json::Value::Null => Json::Null,
        serde_json::Value::Bool(b) => Json::Bool(b),
        serde_json::Value::Number(n) => match (n.as_u64(), n.as_i64()) {
            (Some(u), _) => Json::Uint(u),
            (None, Some(i)) => Json::Int(i),
            (None, None) => Json::Real(n.to_string()),
        },
        serde_json::Value::String(s) => Json::Str(s),
        serde_json::Value::Array(a) => Json::List(a.into_iter().map(json_of).collect()),
        serde_json::Value::Object(m) => Json::Object(fields_of(m.into_iter().map(|(k, v)| (k, json_of(v))).collect())),
    }
}

/// The fields with these names and values; of two with one name the later.
fn fields_of(pairs: Vec<(String, Json)>) -> (r: Fields)
    ensures
        r@ == entries_view(pairs@),
{
    let ghost all = pairs@;
    let mut r = Fields::new();
    for p in it: pairs
        invariant
            it.seq() == all,
            r@ == entries_view(all.take(it.index() as int)),
    {
        assert(all.take(it.index() + 1).drop_last() =~= all.take(it.index() as int));
        r.set(p.0, p.1);
    }
    assert(all.take(all.len() as int) =~= all);
    r
}

/// Turns a `Json` into a `serde_json::Value`, variant by variant. A number
/// that is not whole goes by its text.
#[verifier::external_body]
fn value_of(json: &Json) -> serde_json::Value {
    match json {
        Json::Null => serde_json::Value::Null,
        Json::Bool(b) => serde_json::Value::from(*b),
        Json::Uint(n) => serde_json::Value::from(*n),
        Json::Int(n) => serde_json::Value::from(*n),
        Json::Real(s) => s.parse().ok().and_then(serde_json::Number::from_f64).map(serde_json::Value::Number).unwrap_or_default(),
        Json::Str(s) => serde_json::Value::from(s.as_str()),
        Json::List(v) => v.iter().map(value_of).collect(),
        Json::Object(f) => f.map.entries.iter().map(|e| (e.0.clone(), value_of(&e.1))).collect(),
    }
}

/// Reads a JSON value with `serde_json::from_slice`. The result is the one
/// that `parsed_json` names: the value, or the text of the error.
#[verifier::external_body]
pub(crate) fn read_json(bytes: &[u8]) -> (r: Result<Json, String>)
    ensures
        read_view(r) == parsed_json(bytes@),
{
    match serde_json::from_slice::<serde_json::Value>(bytes) {
        Ok(value) => Ok(json_of(value)),
        Err(e) => Err(e.to_string()),
    }
}

/// Writes a JSON value with the `Display` of `serde_json::Value`. The text is
/// the one that `json_text_of` names; reading it back gives the value, where
/// its numbers are whole and it is not nested more than a hundred deep.
#[verifier::external_body]
pub(crate) fn json_text(v: &Json) -> (r: String)
    ensures
        r@ == json_text_of(v@),
        plain(v@, 100) ==> reads_as(r@, v@),
{
    value_of(v).to_string()
}

// ---------------------------------------------------------------------------
// Laws

/// A field is read as what it is, and as nothing else: a number from zero up,
/// a whole number of 64 bits, a text, a truth, a list or an object. A value
/// that is no object has no fields.
pub proof fn a_field_is_read_as_what_it_is(
    v: JsonView,
    name: Seq<char>,
    u: u64,
    n: i64,
    s: Seq<char>,
    b: bool,
    list: Seq<JsonView>,
    fields: Map<Seq<char>, JsonView>,
)
    ensures
        !(v is Object) ==> field(v, name) is None,
        v matches JsonView::Object(m) ==> {
            &&& field(v, name) is Some <==> m.dom().contains(name)
            &&& m.dom().contains(name) ==> field(v, name) == Some(m[name])
        },
        uint_field(v, name) == Some(u) <==> field(v, name) == Some(JsonView::Uint(u)),
        int_field(v, name) == Some(n) <==> field(v, name) == Some(JsonView::Int(n)) || (0 <= n
            && field(v, name) == Some(JsonView::Uint(n as u64))),
        text_field(v, name) == Some(s) <==> field(v, name) == Some(JsonView::Str(s)),
        bool_field(v, name) == Some(b) <==> field(v, name) == Some(JsonView::Bool(b)),
        list_field(v, name) == Some(list) <==> field(v, name) == Some(JsonView::List(list)),
        object_field(v, name) == Some(fields) <==> field(v, name) == Some(
            JsonView::Object(fields),
        ),
{
}

/// A whole number is held as it is, by its sign, and what is not there is
/// null.
pub proof fn a_number_is_held_by_its_sign(n: i64, u: u64, s: Seq<char>)
    ensures
        n >= 0 ==> int_view(n) == JsonView::Uint(n as u64),
        n < 0 ==> int_view(n) == JsonView::Int(n),
        opt_int_view(Some(n)) == int_view(n),
        opt_int_view(None) == JsonView::Null,
        opt_uint_view(Some(u)) == JsonView::Uint(u),
        opt_uint_view(None) == JsonView::Null,
        opt_text_view(Some(s)) == JsonView::Str(s),
        opt_text_view(None) == JsonView::Null,
{
}

} // verus!
