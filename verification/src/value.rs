//! JSON values and the order in which the index keeps them.

use vstd::prelude::*;
use crate::json::{double_bits, number_bits};

verus! {

/// A JSON number: an integer, or a decimal kept as its JSON text.
#[derive(Debug)]
pub enum Number {
    /// A non-negative integer.
    PosInt(u64),
    /// A negative integer.
    NegInt(i64),
    /// Any other number, as the text that stands in a JSON document.
    Float(String),
}

/// The mathematical value of a [`Number`].
pub enum Num {
    PosInt(u64),
    NegInt(i64),
    Float(Seq<char>),
}

impl View for Number {
    type V = Num;

    open spec fn view(&self) -> Num {
        match self {
            Number::PosInt(u) => Num::PosInt(*u),
            Number::NegInt(i) => Num::NegInt(*i),
            Number::Float(text) => Num::Float(text@),
        }
    }
}

/// A JSON value.
#[derive(Debug)]
pub enum Json {
    Null,
    Bool(bool),
    Number(Number),
    String(String),
    Array(Vec<Json>),
    /// The members in the order they were written; a key is looked up from the front.
    Object(Vec<(String, Json)>),
}

/// The mathematical value of a [`Json`].
pub enum JsonView {
    Null,
    Bool(bool),
    Number(Num),
    String(Seq<char>),
    Array(Seq<JsonView>),
    Object(Seq<(Seq<char>, JsonView)>),
}

/// The mathematical value of `value`.
pub open spec fn json_of(value: Json) -> JsonView
    decreases value,
{
    match value {
        Json::Null => JsonView::Null,
        Json::Bool(b) => JsonView::Bool(b),
        Json::Number(n) => JsonView::Number(n@),
        Json::String(s) => JsonView::String(s@),
        Json::Array(items) => JsonView::Array(
            Seq::new(
                items.len() as nat,
                |i: int|
                    if 0 <= i < items.len() {
                        json_of(items[i])
                    } else {
                        JsonView::Null
                    },
            ),
        ),
        Json::Object(members) => JsonView::Object(
            Seq::new(
                members.len() as nat,
                |i: int|
                    if 0 <= i < members.len() {
                        (members[i].0@, json_of(members[i].1))
                    } else {
                        (Seq::empty(), JsonView::Null)
                    },
            ),
        ),
    }
}

impl View for Json {
    type V = JsonView;

    open spec fn view(&self) -> JsonView {
        json_of(*self)
    }
}

/// The views of a list of values.
pub open spec fn items_view(items: Seq<Json>) -> Seq<JsonView> {
    Seq::new(items.len(), |i: int| items[i]@)
}

/// The views of a list of object members.
pub open spec fn members_view(members: Seq<(String, Json)>) -> Seq<(Seq<char>, JsonView)> {
    Seq::new(members.len(), |i: int| (members[i].0@, members[i].1@))
}

/// The view of an array is the views of its items.
pub proof fn lemma_array_view(items: Vec<Json>)
    ensures
        Json::Array(items)@ == JsonView::Array(items_view(items@)),
{
    let lhs = Json::Array(items)@->Array_0;
    assert(lhs.len() == items@.len());
    assert forall|i: int| 0 <= i < lhs.len() implies lhs[i] == items_view(items@)[i] by {}
    assert(lhs =~= items_view(items@));
}

/// The view of an object is the views of its members.
pub proof fn lemma_object_view(members: Vec<(String, Json)>)
    ensures
        Json::Object(members)@ == JsonView::Object(members_view(members@)),
{
    let lhs = Json::Object(members)@->Object_0;
    assert(lhs.len() == members@.len());
    assert forall|i: int| 0 <= i < lhs.len() implies lhs[i] == members_view(members@)[i] by {}
    assert(lhs =~= members_view(members@));
}

/// How one value stands to another.
#[derive(Clone, Copy, Debug, PartialEq, Eq, Structural)]
pub enum Order {
    Less,
    Equal,
    Greater,
}

/// The order of two integers.
pub open spec fn int_order(a: int, b: int) -> Order {
    if a < b {
        Order::Less
    } else if a == b {
        Order::Equal
    } else {
        Order::Greater
    }
}

/// Whether `a` comes before `b` in the lexicographic order of their code points.
pub open spec fn lex_less(a: Seq<char>, b: Seq<char>) -> bool
    decreases a.len(),
{
    if b.len() == 0 {
        false
    } else if a.len() == 0 {
        true
    } else if a[0] != b[0] {
        (a[0] as u32) < (b[0] as u32)
    } else {
        lex_less(a.drop_first(), b.drop_first())
    }
}

/// The place of a double in the IEEE-754 total order, from its bits: the
/// positive doubles in the order of their bits, below them the negative ones
/// in the reverse order of theirs.
pub open spec fn total_key(bits: u64) -> int {
    if bits < 0x8000_0000_0000_0000 {
        bits as int
    } else {
        -1 - (bits - 0x8000_0000_0000_0000)
    }
}

/// The order of two numbers: that of their doubles in the IEEE-754 total
/// order, and `Equal` where one of them has no double.
pub open spec fn number_order(a: Num, b: Num) -> Order {
    match (double_bits(a), double_bits(b)) {
        (Some(x), Some(y)) => int_order(total_key(x), total_key(y)),
        _ => Order::Equal,
    }
}

/// Whether a value is a scalar that the index can order: a boolean, a number
/// or a string.
pub open spec fn comparable(value: JsonView) -> bool {
    value is Bool || value is Number || value is String
}

/// The value ordering: `false` before `true`, numbers as doubles, strings by
/// code points; values of two kinds, and values that are no scalars, are
/// `Equal`.
pub open spec fn value_order(a: JsonView, b: JsonView) -> Order {
    match (a, b) {
        (JsonView::Bool(x), JsonView::Bool(y)) => if x == y {
            Order::Equal
        } else if y {
            Order::Less
        } else {
            Order::Greater
        },
        (JsonView::Number(x), JsonView::Number(y)) => number_order(x, y),
        (JsonView::String(x), JsonView::String(y)) => if x == y {
            Order::Equal
        } else if lex_less(x, y) {
            Order::Less
        } else {
            Order::Greater
        },
        _ => Order::Equal,
    }
}

/// The first member of an object with the given key.
pub open spec fn lookup(members: Seq<(Seq<char>, JsonView)>, key: Seq<char>) -> Option<JsonView>
    decreases members.len(),
{
    if members.len() == 0 {
        None
    } else if members[0].0 == key {
        Some(members[0].1)
    } else {
        lookup(members.drop_first(), key)
    }
}

/// The member of `value` with the given key, where `value` is an object that has one.
pub open spec fn field(value: JsonView, key: Seq<char>) -> Option<JsonView> {
    match value {
        JsonView::Object(members) => lookup(members, key),
        _ => None,
    }
}

/// A key that no member before `i` has is looked up from `i` on.
pub proof fn lemma_lookup_skip(members: Seq<(Seq<char>, JsonView)>, key: Seq<char>, i: int)
    requires
        0 <= i <= members.len(),
        forall|j: int| 0 <= j < i ==> members[j].0 != key,
    ensures
        lookup(members, key) == lookup(members.skip(i), key),
    decreases i,
{
    if i == 0 {
        assert(members.skip(0) =~= members);
    } else {
        lemma_lookup_skip(members, key, i - 1);
        assert(members.skip(i - 1).drop_first() =~= members.skip(i));
    }
}

/// A key whose first member stands at `i` is found with that member's value.
pub proof fn lemma_lookup_at(members: Seq<(Seq<char>, JsonView)>, key: Seq<char>, i: int)
    requires
        0 <= i < members.len(),
        forall|j: int| 0 <= j < i ==> members[j].0 != key,
        members[i].0 == key,
    ensures
        lookup(members, key) == Some(members[i].1),
{
    lemma_lookup_skip(members, key, i);
    assert(members.skip(i)[0] == members[i]);
}

/// Two different characters have different code points.
pub proof fn lemma_code_points(c: char, d: char)
    requires
        c != d,
    ensures
        c as u32 != d as u32,
{
}

/// Of two different strings one comes before the other.
pub proof fn lemma_lex_total(a: Seq<char>, b: Seq<char>)
    requires
        a != b,
    ensures
        lex_less(a, b) || lex_less(b, a),
    decreases a.len(),
{
    if a.len() > 0 && b.len() > 0 && a[0] == b[0] {
        if a.drop_first() == b.drop_first() {
            assert(a =~= seq![a[0]] + a.drop_first());
            assert(b =~= seq![b[0]] + b.drop_first());
        }
        lemma_lex_total(a.drop_first(), b.drop_first());
    } else if a.len() == 0 && b.len() == 0 {
        assert(a =~= b);
    } else if a.len() > 0 && b.len() > 0 {
        lemma_code_points(a[0], b[0]);
    }
}

/// No string comes before itself, and of two strings not each comes before
/// the other.
pub proof fn lemma_lex_asymmetric(a: Seq<char>, b: Seq<char>)
    ensures
        !(lex_less(a, b) && lex_less(b, a)),
    decreases a.len(),
{
    if a.len() > 0 && b.len() > 0 && a[0] == b[0] {
        lemma_lex_asymmetric(a.drop_first(), b.drop_first());
    }
}

/// The order of strings is transitive.
pub proof fn lemma_lex_transitive(a: Seq<char>, b: Seq<char>, c: Seq<char>)
    requires
        lex_less(a, b),
        lex_less(b, c),
    ensures
        lex_less(a, c),
    decreases a.len(),
{
    if a.len() > 0 && b.len() > 0 && c.len() > 0 && a[0] == b[0] && b[0] == c[0] {
        lemma_lex_transitive(a.drop_first(), b.drop_first(), c.drop_first());
    }
}

/// A value that is greater than another has the other less than itself, and
/// the reverse; two values are equal in both directions or in none.
pub proof fn lemma_order_flip(a: JsonView, b: JsonView)
    ensures
        value_order(a, b) is Greater <==> value_order(b, a) is Less,
        value_order(a, b) is Less <==> value_order(b, a) is Greater,
        value_order(a, b) is Equal <==> value_order(b, a) is Equal,
{
    match (a, b) {
        (JsonView::String(x), JsonView::String(y)) => {
            if x != y {
                lemma_lex_total(x, y);
                lemma_lex_asymmetric(x, y);
            }
        },
        _ => {},
    }
}

/// `str`'s `<`, which std documents as the lexicographic order of the code points.
#[verifier::external_body]
fn str_less(a: &str, b: &str) -> (less: bool)
    ensures
        less == lex_less(a@, b@),
{
    a < b
}

/// The place of a double in the IEEE-754 total order, from its bits.
pub fn double_key(bits: u64) -> (key: i64)
    ensures
        key == total_key(bits),
{
    if bits < 0x8000_0000_0000_0000 {
        bits as i64
    } else {
        -1 - ((bits - 0x8000_0000_0000_0000) as i64)
    }
}

impl Number {
    /// A copy of the number.
    pub fn copy(&self) -> (number: Number)
        ensures
            number@ == self@,
    {
        match self {
            Number::PosInt(u) => Number::PosInt(*u),
            Number::NegInt(i) => Number::NegInt(*i),
            Number::Float(text) => Number::Float(text.clone()),
        }
    }

    /// The order of two numbers.
    pub fn order(&self, other: &Number) -> (order: Order)
        ensures
            order == number_order(self@, other@),
    {
        match number_bits(self) {
            None => Order::Equal,
            Some(x) => match number_bits(other) {
                None => Order::Equal,
                Some(y) => {
                    let p = double_key(x);
                    let q = double_key(y);
                    if p < q {
                        Order::Less
                    } else if p == q {
                        Order::Equal
                    } else {
                        Order::Greater
                    }
                },
            },
        }
    }
}

/// Whether a value is a scalar that the index can order.
pub fn is_comparable(value: &Json) -> (yes: bool)
    ensures
        yes == comparable(value@),
{
    match value {
        Json::Bool(_) => true,
        Json::Number(_) => true,
        Json::String(_) => true,
        _ => false,
    }
}

/// The value ordering of two values.
pub fn value_order_of(a: &Json, b: &Json) -> (order: Order)
    ensures
        order == value_order(a@, b@),
{
    match a {
        Json::Bool(x) => match b {
            Json::Bool(y) => if *x == *y {
                Order::Equal
            } else if *y {
                Order::Less
            } else {
                Order::Greater
            },
            _ => Order::Equal,
        },
        Json::Number(x) => match b {
            Json::Number(y) => x.order(y),
            _ => Order::Equal,
        },
        Json::String(x) => match b {
            Json::String(y) => if *x == *y {
                Order::Equal
            } else if str_less(x.as_str(), y.as_str()) {
                Order::Less
            } else {
                Order::Greater
            },
            _ => Order::Equal,
        },
        _ => Order::Equal,
    }
}

impl Json {
    /// A copy of the value.
    pub fn copy(&self) -> (value: Json)
        ensures
            value@ == self@,
        decreases self,
    {
        match self {
            Json::Null => Json::Null,
            Json::Bool(b) => Json::Bool(*b),
            Json::Number(n) => Json::Number(n.copy()),
            Json::String(s) => Json::String(s.clone()),
            Json::Array(items) => {
                let mut copied: Vec<Json> = Vec::new();
                let mut i: usize = 0;
                while i < items.len()
                    invariant
                        i <= items.len(),
                        copied.len() == i,
                        forall|j: int| 0 <= j < i ==> copied[j]@ == items[j]@,
                        *self == Json::Array(*items),
                    decreases items.len() - i,
                {
                    proof {
                        broadcast use vstd::std_specs::vec::axiom_vec_index_decreases;

                        assert(self->Array_0 == *items);
                        assert(decreases_to!(*self => self->Array_0));
                        assert(decreases_to!(*items => items[i as int]));
                    }
                    copied.push(items[i].copy());
                    i += 1;
                }
                proof {
                    lemma_array_view(copied);
                    lemma_array_view(*items);
                    assert(items_view(copied@) =~= items_view(items@));
                }
                Json::Array(copied)
            },
            Json::Object(members) => {
                let mut copied: Vec<(String, Json)> = Vec::new();
                let mut i: usize = 0;
                while i < members.len()
                    invariant
                        i <= members.len(),
                        copied.len() == i,
                        forall|j: int|
                            0 <= j < i ==> copied[j].0@ == members[j].0@ && copied[j].1@
                                == members[j].1@,
                        *self == Json::Object(*members),
                    decreases members.len() - i,
                {
                    proof {
                        broadcast use vstd::std_specs::vec::axiom_vec_index_decreases;

                        assert(self->Object_0 == *members);
                        assert(decreases_to!(*self => self->Object_0));
                        assert(decreases_to!(*members => members[i as int]));
                        assert(decreases_to!(members[i as int] => members[i as int].1));
                    }
                    copied.push((members[i].0.clone(), members[i].1.copy()));
                    i += 1;
                }
                proof {
                    lemma_object_view(copied);
                    lemma_object_view(*members);
                    assert(members_view(copied@) =~= members_view(members@));
                }
                Json::Object(copied)
            },
        }
    }

    /// The member with the given key, where the value is an object that has one.
    pub fn get(&self, key: &String) -> (found: Option<&Json>)
        ensures
            match found {
                Some(value) => field(self@, key@) == Some(value@),
                None => field(self@, key@) is None,
            },
    {
        match self {
            Json::Object(members) => {
                proof {
                    lemma_object_view(*members);
                }
                let mut i: usize = 0;
                while i < members.len()
                    invariant
                        i <= members.len(),
                        forall|j: int| 0 <= j < i ==> members[j].0@ != key@,
                        self@ == JsonView::Object(members_view(members@)),
                    decreases members.len() - i,
                {
                    if members[i].0 == *key {
                        proof {
                            let all = members_view(members@);
                            lemma_lookup_skip(all, key@, i as int);
                            assert(all.skip(i as int)[0] == all[i as int]);
                        }
                        return Some(&members[i].1);
                    }
                    i += 1;
                }
                proof {
                    lemma_lookup_skip(members_view(members@), key@, i as int);
                }
                None
            },
            _ => None,
        }
    }
}

/// A list of object members.
pub type MembersView = Seq<(Seq<char>, JsonView)>;

/// The members with `value` under `key`: in the place of the first member
/// with that key, or as a new last member.
pub open spec fn put_member(members: MembersView, key: Seq<char>, value: JsonView) -> MembersView
    decreases members.len(),
{
    if members.len() == 0 {
        seq![(key, value)]
    } else if members[0].0 == key {
        members.update(0, (key, value))
    } else {
        seq![members[0]] + put_member(members.drop_first(), key, value)
    }
}

/// The members without the first one with the given key.
pub open spec fn drop_member(members: MembersView, key: Seq<char>) -> MembersView
    decreases members.len(),
{
    if members.len() == 0 {
        members
    } else if members[0].0 == key {
        members.drop_first()
    } else {
        seq![members[0]] + drop_member(members.drop_first(), key)
    }
}

/// Where the first member with `key` stands at `i`, putting replaces it
/// there; where no member has `key`, putting appends.
pub proof fn lemma_put_member(members: MembersView, key: Seq<char>, value: JsonView, i: int)
    requires
        0 <= i <= members.len(),
        forall|j: int| 0 <= j < i ==> members[j].0 != key,
        i < members.len() ==> members[i].0 == key,
    ensures
        put_member(members, key, value) == if i < members.len() {
            members.update(i, (key, value))
        } else {
            members.push((key, value))
        },
    decreases members.len(),
{
    if members.len() == 0 {
        assert(seq![(key, value)] =~= members.push((key, value)));
    } else if i == 0 {
    } else {
        let rest = members.drop_first();
        lemma_put_member(rest, key, value, i - 1);
        if i < members.len() {
            assert(seq![members[0]] + rest.update(i - 1, (key, value)) =~= members.update(
                i,
                (key, value),
            ));
        } else {
            assert(seq![members[0]] + rest.push((key, value)) =~= members.push((key, value)));
        }
    }
}

/// Where the first member with `key` stands at `i`, dropping removes it
/// there; where no member has `key`, dropping changes nothing.
pub proof fn lemma_drop_member(members: MembersView, key: Seq<char>, i: int)
    requires
        0 <= i <= members.len(),
        forall|j: int| 0 <= j < i ==> members[j].0 != key,
        i < members.len() ==> members[i].0 == key,
    ensures
        drop_member(members, key) == if i < members.len() {
            members.remove(i)
        } else {
            members
        },
    decreases members.len(),
{
    if members.len() == 0 {
    } else if i == 0 {
        assert(members.drop_first() =~= members.remove(0));
    } else {
        let rest = members.drop_first();
        lemma_drop_member(rest, key, i - 1);
        if i < members.len() {
            assert(seq![members[0]] + rest.remove(i - 1) =~= members.remove(i));
        } else {
            assert(seq![members[0]] + rest =~= members);
        }
    }
}

/// After putting, the key is found with the value put, and every other key
/// as before.
pub proof fn lemma_lookup_put(members: MembersView, key: Seq<char>, value: JsonView, other: Seq<char>)
    ensures
        lookup(put_member(members, key, value), other) == if other == key {
            Some(value)
        } else {
            lookup(members, other)
        },
    decreases members.len(),
{
    if members.len() == 0 {
        let after = seq![(key, value)];
        assert(after.drop_first() =~= Seq::empty());
        assert(lookup(after.drop_first(), other) is None);
        assert(after[0] == (key, value));
    } else if members[0].0 == key {
        let after = members.update(0, (key, value));
        assert(after.drop_first() =~= members.drop_first());
        assert(after[0] == (key, value));
    } else {
        let rest = members.drop_first();
        lemma_lookup_put(rest, key, value, other);
        let after = seq![members[0]] + put_member(rest, key, value);
        assert(after.drop_first() =~= put_member(rest, key, value));
        assert(after[0] == members[0]);
    }
}

/// After dropping a key, every other key is found as before.
pub proof fn lemma_lookup_drop(members: MembersView, key: Seq<char>, other: Seq<char>)
    requires
        other != key,
    ensures
        lookup(drop_member(members, key), other) == lookup(members, other),
    decreases members.len(),
{
    if members.len() == 0 {
    } else if members[0].0 == key {
    } else {
        let rest = members.drop_first();
        lemma_lookup_drop(rest, key, other);
        let after = seq![members[0]] + drop_member(rest, key);
        assert(after.drop_first() =~= drop_member(rest, key));
        assert(after[0] == members[0]);
    }
}

/// The first member with the given key.
pub fn get_member<'a>(members: &'a Vec<(String, Json)>, key: &String) -> (found: Option<&'a Json>)
    ensures
        match found {
            Some(value) => lookup(members_view(members@), key@) == Some(value@),
            None => lookup(members_view(members@), key@) is None,
        },
{
    let i = find_member(members, key);
    proof {
        let all = members_view(members@);
        lemma_lookup_skip(all, key@, i as int);
        if i < members.len() {
            assert(all.skip(i as int)[0] == all[i as int]);
        }
    }
    if i < members.len() {
        Some(&members[i].1)
    } else {
        None
    }
}

/// A copy of a list of members.
pub fn copy_members(members: &Vec<(String, Json)>) -> (copied: Vec<(String, Json)>)
    ensures
        members_view(copied@) == members_view(members@),
{
    let mut copied: Vec<(String, Json)> = Vec::new();
    let mut i: usize = 0;
    while i < members.len()
        invariant
            i <= members.len(),
            copied.len() == i,
            forall|j: int|
                0 <= j < i ==> copied[j].0@ == members[j].0@ && copied[j].1@ == members[j].1@,
        decreases members.len() - i,
    {
        copied.push((members[i].0.clone(), members[i].1.copy()));
        i += 1;
    }
    assert(members_view(copied@) =~= members_view(members@));
    copied
}

/// The place of the first member with the given key.
pub fn find_member(members: &Vec<(String, Json)>, key: &String) -> (i: usize)
    ensures
        i <= members.len(),
        forall|j: int| 0 <= j < i ==> members_view(members@)[j].0 != key@,
        i < members.len() ==> members_view(members@)[i as int].0 == key@,
{
    let mut i: usize = 0;
    while i < members.len()
        invariant
            i <= members.len(),
            forall|j: int| 0 <= j < i ==> members_view(members@)[j].0 != key@,
        decreases members.len() - i,
    {
        if members[i].0 == *key {
            assert(members_view(members@)[i as int].0 == key@);
            return i;
        }
        i += 1;
    }
    i
}

/// Puts `value` under `key`: in the place of the first member with that key,
/// or as a new last member.
pub fn put(members: &mut Vec<(String, Json)>, key: &String, value: Json)
    ensures
        members_view(final(members)@) == put_member(members_view(old(members)@), key@, value@),
{
    let i = find_member(members, key);
    proof {
        lemma_put_member(members_view(members@), key@, value@, i as int);
    }
    if i < members.len() {
        members.set(i, (key.clone(), value));
        assert(members_view(members@) =~= members_view(old(members)@).update(
            i as int,
            (key@, value@),
        ));
    } else {
        members.push((key.clone(), value));
        assert(members_view(members@) =~= members_view(old(members)@).push((key@, value@)));
    }
}

/// Takes out the first member with the given key.
pub fn take_out(members: &mut Vec<(String, Json)>, key: &String)
    ensures
        members_view(final(members)@) == drop_member(members_view(old(members)@), key@),
{
    let i = find_member(members, key);
    proof {
        lemma_drop_member(members_view(members@), key@, i as int);
    }
    if i < members.len() {
        members.remove(i);
        assert(members_view(members@) =~= members_view(old(members)@).remove(i as int));
    } else {
        assert(members_view(members@) =~= members_view(old(members)@));
    }
}

} // verus!
