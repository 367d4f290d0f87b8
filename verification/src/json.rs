//! JSON values.
//!
//! The values that the library reads, checks and builds. An object is the list
//! of its members in ascending order of their names, each name once. A number
//! with a fraction or an exponent is carried as its decimal text.

use vstd::prelude::*;

use crate::text::{chars_of, same_text};

verus! {

/// A JSON number.
#[derive(Debug, PartialEq)]
pub enum JsonNumber {
    /// A whole number, zero or above.
    Unsigned(u64),
    /// A whole number below zero.
    Negative(i64),
    /// A number with a fraction or an exponent, as its decimal text.
    Real(String),
}

/// A JSON value.
#[derive(Debug, PartialEq)]
pub enum Json {
    /// `null`.
    Null,
    /// `true` or `false`.
    Bool(bool),
    /// A number.
    Number(JsonNumber),
    /// A string.
    Text(String),
    /// An array.
    Array(Vec<Json>),
    /// An object: its members, in ascending order of their names.
    Object(Vec<(String, Json)>),
}

/// What a number holds.
pub enum JsonNumberView {
    Unsigned(u64),
    Negative(i64),
    Real(Seq<char>),
}

/// What a value holds.
pub enum JsonView {
    Null,
    Bool(bool),
    Number(JsonNumberView),
    Text(Seq<char>),
    Array(Seq<JsonView>),
    Object(Seq<(Seq<char>, JsonView)>),
}

/// The members of an object: names and values.
pub type Members = Seq<(Seq<char>, JsonView)>;

impl DeepView for JsonNumber {
    type V = JsonNumberView;

    open spec fn deep_view(&self) -> JsonNumberView {
        match *self {
            JsonNumber::Unsigned(n) => JsonNumberView::Unsigned(n),
            JsonNumber::Negative(n) => JsonNumberView::Negative(n),
            JsonNumber::Real(t) => JsonNumberView::Real(t@),
        }
    }
}

/// What a value holds.
pub open spec fn json_view(j: Json) -> JsonView
    decreases j,
{
    match j {
        Json::Null => JsonView::Null,
        Json::Bool(b) => JsonView::Bool(b),
        Json::Number(n) => JsonView::Number(n.deep_view()),
        Json::Text(t) => JsonView::Text(t@),
        Json::Array(items) => JsonView::Array(
            Seq::new(
                items@.len(),
                |i: int|
                    if 0 <= i < items@.len() {
                        json_view(items@[i])
                    } else {
                        JsonView::Null
                    },
            ),
        ),
        Json::Object(entries) => JsonView::Object(
            Seq::new(
                entries@.len(),
                |i: int|
                    if 0 <= i < entries@.len() {
                        (entries@[i].0@, json_view(entries@[i].1))
                    } else {
                        (seq![], JsonView::Null)
                    },
            ),
        ),
    }
}

impl DeepView for Json {
    type V = JsonView;

    open spec fn deep_view(&self) -> JsonView {
        json_view(*self)
    }
}

/// What an array holds, by its items.
pub broadcast proof fn lemma_array_view(items: Vec<Json>)
    ensures
        #[trigger] json_view(Json::Array(items)) == JsonView::Array(items.deep_view()),
{
    assert(json_view(Json::Array(items))->Array_0 =~= items.deep_view());
}

/// What an object holds, by its members.
pub broadcast proof fn lemma_object_view(entries: Vec<(String, Json)>)
    ensures
        #[trigger] json_view(Json::Object(entries)) == JsonView::Object(entries.deep_view()),
{
    assert(json_view(Json::Object(entries))->Object_0 =~= entries.deep_view());
}

impl Clone for JsonNumber {
    fn clone(&self) -> (r: Self)
        ensures
            r.deep_view() == self.deep_view(),
    {
        match self {
            JsonNumber::Unsigned(n) => JsonNumber::Unsigned(*n),
            JsonNumber::Negative(n) => JsonNumber::Negative(*n),
            JsonNumber::Real(t) => JsonNumber::Real(t.clone()),
        }
    }
}

impl Clone for Json {
    fn clone(&self) -> (r: Self)
        ensures
            r.deep_view() == self.deep_view(),
        decreases self,
    {
        match self {
            Json::Null => Json::Null,
            Json::Bool(b) => Json::Bool(*b),
            Json::Number(n) => Json::Number(n.clone()),
            Json::Text(t) => Json::Text(t.clone()),
            Json::Array(items) => {
                let mut r: Vec<Json> = Vec::new();
                let mut i: usize = 0;
                while i < items.len()
                    invariant
                        i <= items@.len(),
                        *self == Json::Array(*items),
                        r@.len() == i,
                        forall|j: int| 0 <= j < i ==> json_view(r@[j]) == json_view(items@[j]),
                    decreases items@.len() - i,
                {
                    assert(decreases_to!(*self => self->Array_0));
                    assert(decreases_to!(self->Array_0 => items@));
                    assert(decreases_to!(items@ => items@[i as int]));
                    let item: Json = items[i].clone();
                    r.push(item);
                    i = i + 1;
                }
                assert(r.deep_view() =~= items.deep_view());
                proof {
                    lemma_array_view(r);
                    lemma_array_view(*items);
                }
                Json::Array(r)
            },
            Json::Object(entries) => {
                let mut r: Vec<(String, Json)> = Vec::new();
                let mut i: usize = 0;
                while i < entries.len()
                    invariant
                        i <= entries@.len(),
                        *self == Json::Object(*entries),
                        r@.len() == i,
                        forall|j: int|
                            0 <= j < i ==> r@[j].0@ == entries@[j].0@ && json_view(#[trigger] r@[j].1)
                                == json_view(entries@[j].1),
                    decreases entries@.len() - i,
                {
                    let name: String = entries[i].0.clone();
                    assert(decreases_to!(*self => self->Object_0));
                    assert(decreases_to!(self->Object_0 => entries@));
                    assert(decreases_to!(entries@ => entries@[i as int]));
                    assert(decreases_to!(entries@[i as int] => entries@[i as int].1));
                    let item: Json = entries[i].1.clone();
                    r.push((name, item));
                    i = i + 1;
                }
                assert(r.deep_view() =~= entries.deep_view());
                proof {
                    lemma_object_view(r);
                    lemma_object_view(*entries);
                }
                Json::Object(r)
            },
        }
    }
}


/// An array is larger than each of its items.
pub proof fn lemma_item_decreases(items: Vec<Json>, i: int)
    requires
        0 <= i < items@.len(),
    ensures
        decreases_to!(Json::Array(items) => items@[i]),
{
    let j = Json::Array(items);
    assert(decreases_to!(j => j->Array_0));
    assert(decreases_to!(j->Array_0 => items@));
    assert(decreases_to!(items@ => items@[i]));
}

/// An object is larger than the value of each of its members.
pub proof fn lemma_member_decreases(entries: Vec<(String, Json)>, i: int)
    requires
        0 <= i < entries@.len(),
    ensures
        decreases_to!(Json::Object(entries) => entries@[i].1),
{
    let j = Json::Object(entries);
    assert(decreases_to!(j => j->Object_0));
    assert(decreases_to!(j->Object_0 => entries@));
    assert(decreases_to!(entries@ => entries@[i]));
    assert(decreases_to!(entries@[i] => entries@[i].1));
}

// ---------------------------------------------------------------------------
// Members
// ---------------------------------------------------------------------------

/// `a` comes before `b` in the order of characters.
pub open spec fn text_before(a: Seq<char>, b: Seq<char>) -> bool
    decreases a.len(),
{
    if b.len() == 0 {
        false
    } else if a.len() == 0 {
        true
    } else if a[0] != b[0] {
        a[0] < b[0]
    } else {
        text_before(a.skip(1), b.skip(1))
    }
}

/// Whether `a` comes before `b` in the order of characters.
pub fn is_text_before(a: &str, b: &str) -> (r: bool)
    ensures
        r == text_before(a@, b@),
{
    let x: Vec<char> = chars_of(a);
    let y: Vec<char> = chars_of(b);
    let mut i: usize = 0;
    assert(a@.skip(0) == a@ && b@.skip(0) == b@);
    while i < x.len() && i < y.len()
        invariant
            x@ == a@,
            y@ == b@,
            i <= x@.len(),
            i <= y@.len(),
            text_before(a@.skip(i as int), b@.skip(i as int)) == text_before(a@, b@),
        decreases x@.len() - i,
    {
        if x[i] != y[i] {
            return x[i] < y[i];
        }
        assert(a@.skip(i as int).skip(1) == a@.skip(i + 1));
        assert(b@.skip(i as int).skip(1) == b@.skip(i + 1));
        i = i + 1;
    }
    i < y.len()
}

/// The value of the first member with a name.
pub open spec fn lookup(members: Members, name: Seq<char>) -> Option<JsonView>
    decreases members.len(),
{
    if members.len() == 0 {
        None
    } else if members[0].0 == name {
        Some(members[0].1)
    } else {
        lookup(members.skip(1), name)
    }
}

/// Members with one more: it takes the place of the member with its name, or
/// stands before the first member whose name comes after its own.
pub open spec fn with_member(members: Members, name: Seq<char>, value: JsonView) -> Members
    decreases members.len(),
{
    if members.len() == 0 {
        seq![(name, value)]
    } else if members[0].0 == name {
        seq![(name, value)] + members.skip(1)
    } else if text_before(name, members[0].0) {
        seq![(name, value)] + members
    } else {
        seq![members[0]] + with_member(members.skip(1), name, value)
    }
}

/// The position of the first member with a name.
pub open spec fn position(members: Members, name: Seq<char>) -> Option<int>
    decreases members.len(),
{
    if members.len() == 0 {
        None
    } else if members[0].0 == name {
        Some(0)
    } else {
        match position(members.skip(1), name) {
            Some(i) => Some(i + 1),
            None => None,
        }
    }
}

proof fn lemma_lookup_skips(members: Members, name: Seq<char>, n: int)
    requires
        0 <= n <= members.len(),
        forall|j: int| 0 <= j < n ==> members[j].0 != name,
    ensures
        lookup(members, name) == lookup(members.skip(n), name),
    decreases n,
{
    if n == 0 {
        assert(members.skip(0) == members);
    } else {
        assert forall|j: int| 0 <= j < n - 1 implies members.skip(1)[j].0 != name by {
            assert(members.skip(1)[j] == members[j + 1]);
        }
        lemma_lookup_skips(members.skip(1), name, n - 1);
        assert(members.skip(1).skip(n - 1) == members.skip(n));
    }
}

/// The index of the first member with a name.
pub fn find_member(entries: &Vec<(String, Json)>, name: &str) -> (r: Option<usize>)
    ensures
        match r {
            Some(i) => {
                &&& i < entries@.len()
                &&& entries@[i as int].0@ == name@
                &&& lookup(entries.deep_view(), name@) == Some(json_view(entries@[i as int].1))
                &&& forall|j: int| 0 <= j < i ==> entries@[j].0@ != name@
            },
            None => {
                &&& lookup(entries.deep_view(), name@) is None
                &&& forall|j: int| 0 <= j < entries@.len() ==> entries@[j].0@ != name@
            },
        },
{
    let ghost members = entries.deep_view();
    let mut i: usize = 0;
    while i < entries.len()
        invariant
            members == entries.deep_view(),
            i <= entries@.len(),
            forall|j: int| 0 <= j < i ==> entries@[j].0@ != name@,
        decreases entries@.len() - i,
    {
        if same_text(&entries[i].0, name) {
            proof {
                assert forall|j: int| 0 <= j < i implies members[j].0 != name@ by {}
                lemma_lookup_skips(members, name@, i as int);
                assert(members.skip(i as int)[0] == members[i as int]);
            }
            return Some(i);
        }
        i = i + 1;
    }
    proof {
        assert forall|j: int| 0 <= j < i implies members[j].0 != name@ by {}
        lemma_lookup_skips(members, name@, i as int);
    }
    None
}

/// Add a member to an object, or replace the one with its name.
pub fn set_member(entries: &mut Vec<(String, Json)>, name: String, value: Json)
    ensures
        final(entries).deep_view() == with_member(
            old(entries).deep_view(),
            name@,
            json_view(value),
        ),
{
    let ghost before = entries.deep_view();
    let ghost whole = with_member(before, name@, json_view(value));
    let mut i: usize = 0;
    assert(before.skip(0) == before);
    assert(before.take(0) + whole == whole);
    while i < entries.len()
        invariant
            before == entries.deep_view(),
            before == old(entries).deep_view(),
            whole == with_member(before, name@, json_view(value)),
            i <= entries@.len(),
            whole == before.take(i as int) + with_member(
                before.skip(i as int),
                name@,
                json_view(value),
            ),
        decreases entries@.len() - i,
    {
        assert(before.skip(i as int)[0] == before[i as int]);
        assert(before.skip(i as int).skip(1) == before.skip(i + 1));
        if same_text(&entries[i].0, &name) {
            let ghost v = json_view(value);
            entries.set(i, (name, value));
            assert(entries.deep_view() =~= before.take(i as int) + (seq![(name@, v)]
                + before.skip(i + 1)));
            return ;
        }
        if is_text_before(&name, &entries[i].0) {
            let ghost v = json_view(value);
            entries.insert(i, (name, value));
            assert(entries.deep_view() =~= before.take(i as int) + (seq![(name@, v)]
                + before.skip(i as int)));
            return ;
        }
        assert(before.take(i as int) + (seq![before[i as int]] + with_member(
            before.skip(i + 1),
            name@,
            json_view(value),
        )) =~= before.take(i + 1) + with_member(before.skip(i + 1), name@, json_view(value)));
        i = i + 1;
    }
    let ghost v = json_view(value);
    let ghost n = name@;
    entries.push((name, value));
    assert(entries.deep_view() =~= before.take(i as int) + seq![(n, v)]);
}

/// After a member is set, it is what its name gives.
pub proof fn lemma_lookup_set(members: Members, name: Seq<char>, value: JsonView)
    ensures
        lookup(with_member(members, name, value), name) == Some(value),
    decreases members.len(),
{
    if members.len() > 0 && members[0].0 != name && !text_before(name, members[0].0) {
        lemma_lookup_set(members.skip(1), name, value);
        let w = with_member(members, name, value);
        assert(w.skip(1) =~= with_member(members.skip(1), name, value));
    } else {
        assert(with_member(members, name, value)[0] == (name, value));
    }
}

/// Setting a member leaves what every other name gives as it was.
pub proof fn lemma_lookup_set_other(
    members: Members,
    name: Seq<char>,
    value: JsonView,
    other: Seq<char>,
)
    requires
        other != name,
    ensures
        lookup(with_member(members, name, value), other) == lookup(members, other),
    decreases members.len(),
{
    let w = with_member(members, name, value);
    if members.len() == 0 {
        assert(w.skip(1) =~= members);
    } else if members[0].0 == name {
        assert(w.skip(1) =~= members.skip(1));
    } else if text_before(name, members[0].0) {
        assert(w.skip(1) =~= members);
    } else {
        lemma_lookup_set_other(members.skip(1), name, value, other);
        assert(w.skip(1) =~= with_member(members.skip(1), name, value));
        assert(w[0] == members[0]);
    }
}

// ---------------------------------------------------------------------------
// Reading a value
// ---------------------------------------------------------------------------

/// The member of a value with a name, where the value is an object that has it.
pub open spec fn field(j: JsonView, name: Seq<char>) -> Option<JsonView> {
    match j {
        JsonView::Object(members) => lookup(members, name),
        _ => None,
    }
}

/// The text of a value, where it is a string.
pub open spec fn text_of(j: Option<JsonView>) -> Option<Seq<char>> {
    match j {
        Some(JsonView::Text(t)) => Some(t),
        _ => None,
    }
}

/// The items of a value, where it is an array.
pub open spec fn items_of(j: Option<JsonView>) -> Option<Seq<JsonView>> {
    match j {
        Some(JsonView::Array(items)) => Some(items),
        _ => None,
    }
}

/// The members of a value, where it is an object.
pub open spec fn members_of(j: Option<JsonView>) -> Option<Members> {
    match j {
        Some(JsonView::Object(members)) => Some(members),
        _ => None,
    }
}

/// The value as an unsigned whole number, where it is one.
pub open spec fn unsigned_of(j: Option<JsonView>) -> Option<u64> {
    match j {
        Some(JsonView::Number(JsonNumberView::Unsigned(n))) => Some(n),
        _ => None,
    }
}

/// The number as a signed 64-bit whole number, where it is one.
pub open spec fn signed_value(n: JsonNumberView) -> Option<i64> {
    match n {
        JsonNumberView::Unsigned(u) => if u <= i64::MAX {
            Some(u as i64)
        } else {
            None
        },
        JsonNumberView::Negative(i) => Some(i),
        JsonNumberView::Real(_) => None,
    }
}

impl Json {
    /// The member with a name, where the value is an object that has it.
    pub fn get(&self, name: &str) -> (r: Option<&Json>)
        ensures
            r.deep_view() == field(self.deep_view(), name@),
            r is Some ==> decreases_to!(*self => *r->0),
    {
        match self {
            Json::Object(entries) => {
                proof {
                    lemma_object_view(*entries);
                }
                match find_member(entries, name) {
                    Some(i) => {
                        proof {
                            lemma_member_decreases(*entries, i as int);
                        }
                        Some(&entries[i].1)
                    },
                    None => None,
                }
            },
            _ => None,
        }
    }

    /// The text, where the value is a string.
    pub fn as_str(&self) -> (r: Option<&str>)
        ensures
            r.deep_view() == text_of(Some(self.deep_view())),
    {
        match self {
            Json::Text(t) => Some(t.as_str()),
            _ => None,
        }
    }

    /// The whole number, where the value is one that is zero or above.
    pub fn as_u64(&self) -> (r: Option<u64>)
        ensures
            r == unsigned_of(Some(self.deep_view())),
    {
        match self {
            Json::Number(JsonNumber::Unsigned(n)) => Some(*n),
            _ => None,
        }
    }

    /// The items, where the value is an array.
    pub fn as_array(&self) -> (r: Option<&Vec<Json>>)
        ensures
            r.deep_view() == items_of(Some(self.deep_view())),
            r is Some ==> *self == Json::Array(*r->0),
    {
        match self {
            Json::Array(items) => {
                proof {
                    lemma_array_view(*items);
                }
                Some(items)
            },
            _ => None,
        }
    }

    /// The members, where the value is an object.
    pub fn as_object(&self) -> (r: Option<&Vec<(String, Json)>>)
        ensures
            r.deep_view() == members_of(Some(self.deep_view())),
            r is Some ==> *self == Json::Object(*r->0),
    {
        match self {
            Json::Object(entries) => {
                proof {
                    lemma_object_view(*entries);
                }
                Some(entries)
            },
            _ => None,
        }
    }
}

impl JsonNumber {
    /// The number as a signed 64-bit whole number, where it is one.
    pub fn as_i64(&self) -> (r: Option<i64>)
        ensures
            r == signed_value(self.deep_view()),
    {
        match self {
            JsonNumber::Unsigned(n) => if *n <= 0x7fff_ffff_ffff_ffff {
                Some(*n as i64)
            } else {
                None
            },
            JsonNumber::Negative(n) => Some(*n),
            JsonNumber::Real(_) => None,
        }
    }
}


// ---------------------------------------------------------------------------
// Numbers with a fraction
// ---------------------------------------------------------------------------

/// The place of a finite IEEE 754 double, given by its bits, among all of them:
/// the smaller of two doubles has the smaller rank, and two equal ones (the two
/// zeros among them) have the same.
pub open spec fn real_rank(bits: u64) -> int {
    if bits < 0x8000_0000_0000_0000 {
        bits as int
    } else {
        0x8000_0000_0000_0000 - bits as int
    }
}

/// Whether the first of two finite doubles is below the second.
pub fn real_below(a: u64, b: u64) -> (r: bool)
    ensures
        r == (real_rank(a) < real_rank(b)),
{
    if a < 0x8000_0000_0000_0000 {
        b < 0x8000_0000_0000_0000 && a < b
    } else if b < 0x8000_0000_0000_0000 {
        !(a == 0x8000_0000_0000_0000 && b == 0)
    } else {
        b < a
    }
}

/// `m` times two to the power of `k`, where that is a whole number.
pub open spec fn scaled(m: nat, k: int) -> Option<nat>
    decreases (if k < 0 { -k } else { k }),
{
    if k == 0 {
        Some(m)
    } else if k > 0 {
        scaled(2 * m, k - 1)
    } else if m % 2 == 0 {
        scaled(m / 2, k + 1)
    } else {
        None
    }
}

/// The significand of a double, as a whole number.
pub open spec fn real_significand(bits: u64) -> nat {
    if (bits / 0x10_0000_0000_0000) % 0x800 == 0 {
        (bits % 0x10_0000_0000_0000) as nat
    } else {
        (bits % 0x10_0000_0000_0000 + 0x10_0000_0000_0000) as nat
    }
}

/// The power of two by which the significand of a double is scaled.
pub open spec fn real_exponent(bits: u64) -> int {
    if (bits / 0x10_0000_0000_0000) % 0x800 == 0 {
        -1074
    } else {
        (bits / 0x10_0000_0000_0000) % 0x800 - 1075
    }
}

/// The whole number that a finite double is, where it is one.
pub open spec fn real_integer(bits: u64) -> Option<int> {
    match scaled(real_significand(bits), real_exponent(bits)) {
        Some(m) => Some(
            if bits < 0x8000_0000_0000_0000 {
                m as int
            } else {
                -(m as int)
            },
        ),
        None => None,
    }
}

proof fn lemma_scaled_grows(m: nat, k: int)
    requires
        k >= 0,
    ensures
        scaled(m, k) is Some,
        scaled(m, k)->0 >= m,
    decreases k,
{
    if k > 0 {
        lemma_scaled_grows(2 * m, k - 1);
    }
}

/// The magnitude of a double that is a whole number no larger than two to the
/// power of 63.
fn small_magnitude(bits: u64) -> (r: Option<u64>)
    ensures
        match scaled(real_significand(bits), real_exponent(bits)) {
            Some(m) => if m <= 0x8000_0000_0000_0000 {
                r == Some(m as u64)
            } else {
                r is None
            },
            None => r is None,
        },
{
    let e: u64 = (bits / 0x10_0000_0000_0000) % 0x800;
    let mut m: u64 = if e == 0 {
        bits % 0x10_0000_0000_0000
    } else {
        bits % 0x10_0000_0000_0000 + 0x10_0000_0000_0000
    };
    let mut k: i64 = if e == 0 {
        -1074
    } else {
        e as i64 - 1075
    };
    let ghost whole = scaled(m as nat, k as int);
    while k < 0
        invariant
            -1074 <= k <= 2047,
            m < 0x20_0000_0000_0000,
            whole == scaled(m as nat, k as int),
            whole == scaled(real_significand(bits), real_exponent(bits)),
        decreases -k,
    {
        if m % 2 != 0 {
            return None;
        }
        m = m / 2;
        k = k + 1;
    }
    while k > 0
        invariant
            0 <= k <= 2047,
            m <= 0x8000_0000_0000_0000,
            whole == scaled(m as nat, k as int),
            whole == scaled(real_significand(bits), real_exponent(bits)),
        decreases k,
    {
        proof {
            lemma_scaled_grows(2 * m as nat, k - 1);
        }
        if m > 0x4000_0000_0000_0000 {
            return None;
        }
        m = 2 * m;
        k = k - 1;
    }
    Some(m)
}

/// The signed 64-bit number for a finite double that is a whole number from
/// minus two to the power of 63 up to two to the power of 63. The upper bound
/// itself, which has no signed 64-bit number, gives the largest one.
pub open spec fn whole_number(bits: u64) -> Option<i64> {
    match real_integer(bits) {
        Some(n) => if -0x8000_0000_0000_0000 <= n <= 0x8000_0000_0000_0000 {
            if n == 0x8000_0000_0000_0000 {
                Some(i64::MAX)
            } else {
                Some(n as i64)
            }
        } else {
            None
        },
        None => None,
    }
}

/// The signed 64-bit number for a finite double, where `whole_number` has one.
pub fn to_whole_number(bits: u64) -> (r: Option<i64>)
    ensures
        r == whole_number(bits),
{
    match small_magnitude(bits) {
        None => None,
        Some(m) => if bits < 0x8000_0000_0000_0000 {
            if m == 0x8000_0000_0000_0000 {
                Some(i64::MAX)
            } else {
                Some(m as i64)
            }
        } else if m == 0x8000_0000_0000_0000 {
            Some(i64::MIN)
        } else {
            Some(-(m as i64))
        },
    }
}


// ---------------------------------------------------------------------------
// Equality
// ---------------------------------------------------------------------------

/// Two numbers are equal. Whole numbers are equal to themselves alone; numbers
/// with a fraction are equal when they are the same double.
pub open spec fn same_number(a: JsonNumberView, b: JsonNumberView) -> bool {
    match (a, b) {
        (JsonNumberView::Unsigned(x), JsonNumberView::Unsigned(y)) => x == y,
        (JsonNumberView::Negative(x), JsonNumberView::Negative(y)) => x == y,
        (JsonNumberView::Real(x), JsonNumberView::Real(y)) => x == y || match (
            real_value(a),
            real_value(b),
        ) {
            (Some(p), Some(q)) => real_rank(p) == real_rank(q),
            _ => false,
        },
        _ => false,
    }
}

/// Two values are equal.
pub open spec fn same_json(a: JsonView, b: JsonView) -> bool
    decreases a,
{
    match (a, b) {
        (JsonView::Null, JsonView::Null) => true,
        (JsonView::Bool(x), JsonView::Bool(y)) => x == y,
        (JsonView::Number(x), JsonView::Number(y)) => same_number(x, y),
        (JsonView::Text(x), JsonView::Text(y)) => x == y,
        (JsonView::Array(x), JsonView::Array(y)) => {
            &&& x.len() == y.len()
            &&& forall|i: int| 0 <= i < x.len() ==> same_json(#[trigger] x[i], y[i])
        },
        (JsonView::Object(x), JsonView::Object(y)) => {
            &&& x.len() == y.len()
            &&& forall|i: int|
                0 <= i < x.len() ==> (#[trigger] x[i]).0 == y[i].0 && same_json(x[i].1, y[i].1)
        },
        _ => false,
    }
}

/// A value is equal to itself.
pub proof fn law_same_json_reflexive(a: JsonView)
    ensures
        same_json(a, a),
    decreases a,
{
    match a {
        JsonView::Array(x) => {
            assert forall|i: int| 0 <= i < x.len() implies same_json(#[trigger] x[i], x[i]) by {
                law_same_json_reflexive(x[i]);
            }
        },
        JsonView::Object(x) => {
            assert forall|i: int| 0 <= i < x.len() implies same_json(
                (#[trigger] x[i]).1,
                x[i].1,
            ) by {
                assert(decreases_to!(x => x[i]));
                law_same_json_reflexive(x[i].1);
            }
        },
        _ => {},
    }
}

impl JsonNumber {
    /// Whether two numbers are equal.
    pub fn same(&self, other: &JsonNumber) -> (r: bool)
        ensures
            r == same_number(self.deep_view(), other.deep_view()),
    {
        match (self, other) {
            (JsonNumber::Unsigned(x), JsonNumber::Unsigned(y)) => *x == *y,
            (JsonNumber::Negative(x), JsonNumber::Negative(y)) => *x == *y,
            (JsonNumber::Real(x), JsonNumber::Real(y)) => {
                if same_text(x, y) {
                    return true;
                }
                match (as_real(self), as_real(other)) {
                    (Some(p), Some(q)) => !real_below(p, q) && !real_below(q, p),
                    _ => false,
                }
            },
            _ => false,
        }
    }
}

impl Json {
    /// Whether two values are equal.
    pub fn same(&self, other: &Json) -> (r: bool)
        ensures
            r == same_json(self.deep_view(), other.deep_view()),
        decreases self,
    {
        match (self, other) {
            (Json::Null, Json::Null) => true,
            (Json::Bool(x), Json::Bool(y)) => *x == *y,
            (Json::Number(x), Json::Number(y)) => x.same(y),
            (Json::Text(x), Json::Text(y)) => same_text(x, y),
            (Json::Array(x), Json::Array(y)) => {
                proof {
                    lemma_array_view(*x);
                    lemma_array_view(*y);
                }
                if x.len() != y.len() {
                    return false;
                }
                let ghost xs = x.deep_view();
                let ghost ys = y.deep_view();
                let mut i: usize = 0;
                while i < x.len()
                    invariant
                        x@.len() == y@.len(),
                        xs == x.deep_view(),
                        ys == y.deep_view(),
                        *self == Json::Array(*x),
                        *other == Json::Array(*y),
                        self.deep_view() == JsonView::Array(xs),
                        other.deep_view() == JsonView::Array(ys),
                        i <= x@.len(),
                        forall|j: int| 0 <= j < i ==> same_json(#[trigger] xs[j], ys[j]),
                    decreases x@.len() - i,
                {
                    proof {
                        lemma_item_decreases(*x, i as int);
                    }
                    if !x[i].same(&y[i]) {
                        assert(!same_json(xs[i as int], ys[i as int]));
                        return false;
                    }
                    assert(same_json(xs[i as int], ys[i as int]));
                    i = i + 1;
                }
                true
            },
            (Json::Object(x), Json::Object(y)) => {
                proof {
                    lemma_object_view(*x);
                    lemma_object_view(*y);
                }
                if x.len() != y.len() {
                    return false;
                }
                let ghost xs = x.deep_view();
                let ghost ys = y.deep_view();
                let mut i: usize = 0;
                while i < x.len()
                    invariant
                        x@.len() == y@.len(),
                        xs == x.deep_view(),
                        ys == y.deep_view(),
                        *self == Json::Object(*x),
                        *other == Json::Object(*y),
                        self.deep_view() == JsonView::Object(xs),
                        other.deep_view() == JsonView::Object(ys),
                        i <= x@.len(),
                        forall|j: int|
                            0 <= j < i ==> (#[trigger] xs[j]).0 == ys[j].0 && same_json(
                                xs[j].1,
                                ys[j].1,
                            ),
                    decreases x@.len() - i,
                {
                    proof {
                        lemma_member_decreases(*x, i as int);
                    }
                    let ghost here = same_json(xs[i as int].1, ys[i as int].1);
                    if !same_text(&x[i].0, &y[i].0) || !x[i].1.same(&y[i].1) {
                        assert(!here || xs[i as int].0 != ys[i as int].0);
                        return false;
                    }
                    assert(here);
                    i = i + 1;
                }
                true
            },
            _ => false,
        }
    }
}

// ---------------------------------------------------------------------------
// The serde_json crate
// ---------------------------------------------------------------------------

/// A value of the `serde_json` crate.
#[verifier::external_type_specification]
#[verifier::external_body]
pub struct ExValue(serde_json::Value);

/// A number of the `serde_json` crate.
#[verifier::external_type_specification]
#[verifier::external_body]
pub struct ExNumber(serde_json::Number);

/// The number of the `serde_json` crate for a number, where it has one: a text
/// that is no finite number has none.
#[verifier::external_body]
fn number_of(n: &JsonNumber) -> Option<serde_json::Number> {
    match n {
        JsonNumber::Unsigned(u) => Some(serde_json::Number::from(*u)),
        JsonNumber::Negative(i) => Some(serde_json::Number::from(*i)),
        JsonNumber::Real(t) => t.parse().ok().and_then(serde_json::Number::from_f64),
    }
}

/// The value of the `serde_json` crate for a value.
#[verifier::external_body]
fn value_of(j: &Json) -> serde_json::Value {
    match j {
        Json::Null => serde_json::Value::Null,
        Json::Bool(b) => serde_json::Value::Bool(*b),
        Json::Number(n) => number_of(n).map_or(serde_json::Value::Null, serde_json::Value::Number),
        Json::Text(t) => serde_json::Value::String(t.clone()),
        Json::Array(a) => serde_json::Value::Array(a.iter().map(value_of).collect()),
        Json::Object(o) => serde_json::Value::Object(
            o.iter().map(|m| (m.0.clone(), value_of(&m.1))).collect(),
        ),
    }
}

/// The value for a value of the `serde_json` crate.
#[verifier::external_body]
fn json_of(v: serde_json::Value) -> Json {
    match v {
        serde_json::Value::Null => Json::Null,
        serde_json::Value::Bool(b) => Json::Bool(b),
        serde_json::Value::Number(n) => Json::Number(match (n.as_u64(), n.as_i64()) {
            (Some(u), _) => JsonNumber::Unsigned(u),
            (None, Some(i)) => JsonNumber::Negative(i),
            (None, None) => JsonNumber::Real(n.to_string()),
        }),
        serde_json::Value::String(t) => Json::Text(t),
        serde_json::Value::Array(a) => Json::Array(a.into_iter().map(json_of).collect()),
        serde_json::Value::Object(o) => Json::Object(
            o.into_iter().map(|m| (m.0, json_of(m.1))).collect(),
        ),
    }
}

/// What `serde_json` reads out of a text: the value, or the message of the
/// error.
pub uninterp spec fn parsed_json(text: Seq<char>) -> Result<JsonView, Seq<char>>;

/// What a result of reading holds.
pub open spec fn json_result_view(r: Result<Json, String>) -> Result<JsonView, Seq<char>> {
    match r {
        Ok(j) => Ok(json_view(j)),
        Err(e) => Err(e@),
    }
}

/// `serde_json::from_str` into a value: the value that the text holds, or the
/// message of the error, which both depend on the text alone.
#[verifier::external_body]
pub(crate) fn parse_json(text: &str) -> (r: Result<Json, String>)
    ensures
        json_result_view(r) == parsed_json(text@),
{
    serde_json::from_str(text).map(json_of).map_err(|e: serde_json::Error| e.to_string())
}

/// The text that `serde_json` writes for a value, without white space.
pub uninterp spec fn printed_json(j: JsonView) -> Seq<char>;

/// `serde_json::Value::to_string`: the value as text without white space,
/// which depends on the value alone.
#[verifier::external_body]
pub(crate) fn print_json(j: &Json) -> (r: String)
    ensures
        r@ == printed_json(j.deep_view()),
{
    value_of(j).to_string()
}

/// The text that `serde_json` writes for a value, indented.
pub uninterp spec fn pretty_json(j: JsonView) -> Seq<char>;

/// `serde_json::to_string_pretty`, which does not fail on a value: the value as
/// indented text, which depends on the value alone.
#[verifier::external_body]
pub(crate) fn print_pretty_json(j: &Json) -> (r: String)
    ensures
        r@ == pretty_json(j.deep_view()),
{
    let value = value_of(j);
    serde_json::to_string_pretty(&value).unwrap_or_else(|_| value.to_string())
}

/// The bits of the double for a number; none for a text that is no finite
/// number.
pub uninterp spec fn real_value(n: JsonNumberView) -> Option<u64>;

/// `serde_json::Number::as_f64`: the number as a double, by its bits. Every
/// whole number has one.
#[verifier::external_body]
pub(crate) fn as_real(n: &JsonNumber) -> (r: Option<u64>)
    ensures
        r == real_value(n.deep_view()),
        !(n is Real) ==> r is Some,
{
    number_of(n).and_then(|number| number.as_f64()).map(|x| x.to_bits())
}

/// The text that a double shows for a number; none for a text that is no
/// finite number.
pub uninterp spec fn shown_real(n: JsonNumberView) -> Option<Seq<char>>;

/// The `Display` text of the double that `serde_json::Number::as_f64` gives for
/// a number, which depends on the number alone.
#[verifier::external_body]
pub(crate) fn show_real(n: &JsonNumber) -> (r: Option<String>)
    ensures
        r.deep_view() == shown_real(n.deep_view()),
        r is Some == real_value(n.deep_view()) is Some,
{
    number_of(n).and_then(|number| number.as_f64()).map(|x| x.to_string())
}

/// What a text is as a double: nothing where it is no number; otherwise, where
/// the number is finite, its bits and the text that `serde_json` writes for it.
pub uninterp spec fn parsed_real(text: Seq<char>) -> Option<Option<(u64, Seq<char>)>>;

/// What a result of reading a double holds.
pub open spec fn real_result_view(r: Option<Option<(u64, String)>>) -> Option<
    Option<(u64, Seq<char>)>,
> {
    match r {
        Some(Some(p)) => Some(Some((p.0, p.1@))),
        Some(None) => Some(None),
        None => None,
    }
}

/// `str::parse` into a double and `serde_json::Number::from_f64`: whether the
/// text is a number, and for a finite one its bits and its text in JSON. All of
/// it depends on the text alone.
#[verifier::external_body]
pub(crate) fn parse_real(text: &str) -> (r: Option<Option<(u64, String)>>)
    ensures
        real_result_view(r) == parsed_real(text@),
{
    text.parse().ok().map(|x| {
        serde_json::Number::from_f64(x).map(|number| (x.to_bits(), number.to_string()))
    })
}

} // verus!
