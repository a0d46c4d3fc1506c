//! The JSON data model: values, their mathematical view, and the equality
//! that comparisons use.

use crate::number::{Decimal, Number};
use crate::text::same_text;
use vstd::prelude::*;

verus! {

/// One member of an object: a name and its value.
#[derive(Debug, PartialEq)]
pub struct Member {
    pub name: String,
    pub value: Json,
}

/// A JSON value. The members of an object are kept in insertion order.
#[derive(Debug, PartialEq)]
pub enum Json {
    Null,
    Bool(bool),
    Number(Number),
    String(String),
    Array(Vec<Json>),
    Object(Vec<Member>),
}

/// Mathematical model of a [`Member`].
pub ghost struct MemberView {
    pub name: Seq<char>,
    pub value: JsonView,
}

/// Mathematical model of a [`Json`] value.
pub ghost enum JsonView {
    Null,
    Bool(bool),
    Number(Decimal),
    String(Seq<char>),
    Array(Seq<JsonView>),
    Object(Seq<MemberView>),
}

impl View for Member {
    type V = MemberView;

    open spec fn view(&self) -> MemberView {
        MemberView { name: self.name@, value: self.value@ }
    }
}

impl View for Json {
    type V = JsonView;

    open spec fn view(&self) -> JsonView
        decreases self,
    {
        match self {
            Json::Null => JsonView::Null,
            Json::Bool(b) => JsonView::Bool(*b),
            Json::Number(n) => JsonView::Number(n@),
            Json::String(s) => JsonView::String(s@),
            Json::Array(items) => JsonView::Array(
                Seq::new(
                    items@.len(),
                    |i: int|
                        if 0 <= i < items@.len() {
                            items@[i]@
                        } else {
                            JsonView::Null
                        },
                ),
            ),
            Json::Object(members) => JsonView::Object(
                Seq::new(
                    members@.len(),
                    |i: int|
                        if 0 <= i < members@.len() {
                            MemberView { name: members@[i].name@, value: members@[i].value@ }
                        } else {
                            MemberView { name: Seq::empty(), value: JsonView::Null }
                        },
                ),
            ),
        }
    }
}

/// Index of the first member called `name`, if there is one.
pub open spec fn find_member(members: Seq<MemberView>, name: Seq<char>) -> Option<int>
    decreases members.len(),
{
    if members.len() == 0 {
        None
    } else {
        match find_member(members.drop_last(), name) {
            Some(i) => Some(i),
            None => if members.last().name == name {
                Some(members.len() - 1)
            } else {
                None
            },
        }
    }
}

impl JsonView {
    /// The direct children of a value, in document order: the elements of an
    /// array, the member values of an object, nothing for a scalar.
    pub open spec fn children(self) -> Seq<JsonView> {
        match self {
            JsonView::Array(items) => items,
            JsonView::Object(members) => Seq::new(members.len(), |i: int| members[i].value),
            _ => Seq::empty(),
        }
    }

    /// Equality as comparisons see it: scalars by value, arrays element by
    /// element, objects member by member whatever the order of the members.
    pub open spec fn same(self, other: JsonView) -> bool
        decreases self, 0nat,
    {
        match (self, other) {
            (JsonView::Null, JsonView::Null) => true,
            (JsonView::Bool(a), JsonView::Bool(b)) => a == b,
            (JsonView::Number(a), JsonView::Number(b)) => a == b,
            (JsonView::String(a), JsonView::String(b)) => a == b,
            (JsonView::Array(a), JsonView::Array(b)) => a.len() == b.len() && same_items(
                a,
                b,
                a.len(),
            ),
            (JsonView::Object(a), JsonView::Object(b)) => a.len() == b.len() && same_members(
                a,
                b,
                a.len(),
            ),
            _ => false,
        }
    }
}

/// The first `k` elements of `a` equal those of `b`, position by position.
pub open spec fn same_items(a: Seq<JsonView>, b: Seq<JsonView>, k: nat) -> bool
    decreases a, k,
{
    if k == 0 || k > a.len() || k > b.len() {
        k == 0
    } else {
        same_items(a, b, (k - 1) as nat) && a[k - 1].same(b[k - 1])
    }
}

/// Each of the first `k` members of `a` has a member of its name in `b`, with
/// the same value.
pub open spec fn same_members(a: Seq<MemberView>, b: Seq<MemberView>, k: nat) -> bool
    decreases a, k,
{
    if k == 0 || k > a.len() {
        k == 0
    } else {
        same_members(a, b, (k - 1) as nat) && match find_member(b, a[k - 1].name) {
            Some(j) => a[k - 1].value.same(b[j].value),
            None => false,
        }
    }
}

/// If the first `n` elements agree, so do the first `k <= n`.
pub proof fn lemma_same_items_prefix(a: Seq<JsonView>, b: Seq<JsonView>, k: nat, n: nat)
    requires
        k <= n <= a.len(),
        n <= b.len(),
        same_items(a, b, n),
    ensures
        same_items(a, b, k),
    decreases n,
{
    if k < n {
        lemma_same_items_prefix(a, b, k, (n - 1) as nat);
    }
}

/// If the first `n` members are matched, so are the first `k <= n`.
pub proof fn lemma_same_members_prefix(a: Seq<MemberView>, b: Seq<MemberView>, k: nat, n: nat)
    requires
        k <= n <= a.len(),
        same_members(a, b, n),
    ensures
        same_members(a, b, k),
    decreases n,
{
    if k < n {
        lemma_same_members_prefix(a, b, k, (n - 1) as nat);
    }
}

/// Index of the first member of `members` called `name`.
pub fn find_member_exec(members: &Vec<Member>, name: &str) -> (r: Option<usize>)
    ensures
        match find_member(Json::Object(*members)@->Object_0, name@) {
            Some(i) => r == Some(i as usize) && 0 <= i < members.len(),
            None => r is None,
        },
{
    let ghost views = Json::Object(*members)@->Object_0;
    let mut found: Option<usize> = None;
    let mut i: usize = 0;
    while i < members.len()
        invariant
            i <= members.len() == views.len(),
            views == Json::Object(*members)@->Object_0,
            match find_member(views.take(i as int), name@) {
                Some(k) => found == Some(k as usize) && 0 <= k < i,
                None => found is None,
            },
        decreases members.len() - i,
    {
        proof {
            assert(views.take(i + 1).drop_last() =~= views.take(i as int));
            assert(views.take(i + 1).last().name == members[i as int].name@);
        }
        if found.is_none() && same_text(members[i].name.as_str(), name) {
            found = Some(i);
        }
        i += 1;
    }
    assert(views.take(members.len() as int) =~= views);
    found
}

impl Json {
    /// A copy of the value.
    pub fn duplicate(&self) -> (r: Json)
        ensures
            r@ == self@,
        decreases self, 0nat,
    {
        match self {
            Json::Null => Json::Null,
            Json::Bool(b) => Json::Bool(*b),
            Json::Number(n) => Json::Number(n.duplicate()),
            Json::String(s) => Json::String(s.clone()),
            Json::Array(items) => {
                let mut copies: Vec<Json> = Vec::new();
                let mut i: usize = 0;
                while i < items.len()
                    invariant
                        i <= items.len(),
                        self is Array,
                        self->Array_0 == *items,
                        copies.len() == i,
                        forall|k: int| 0 <= k < i ==> copies@[k]@ == items@[k]@,
                    decreases items.len() - i,
                {
                    let item: &Json = &items[i];
                    assert(decreases_to!(*items => items[i as int]));

                    let copy: Json = item.duplicate();
                    copies.push(copy);
                    i += 1;
                }
                let copy = Json::Array(copies);
                assert(copy@->Array_0 =~= self@->Array_0);
                copy
            },
            Json::Object(members) => {
                let mut copies: Vec<Member> = Vec::new();
                let mut i: usize = 0;
                while i < members.len()
                    invariant
                        i <= members.len(),
                        self is Object,
                        self->Object_0 == *members,
                        copies.len() == i,
                        forall|k: int| 0 <= k < i ==> copies@[k]@ == members@[k]@,
                    decreases members.len() - i,
                {
                    let member: &Member = &members[i];
                    assert(decreases_to!(*members => members[i as int]));
                    let value: Json = member.value.duplicate();
                    copies.push(Member { name: member.name.clone(), value });
                    i += 1;
                }
                let copy = Json::Object(copies);
                assert(copy@->Object_0 =~= self@->Object_0);
                copy
            },
        }
    }

    /// Number of direct children of the value.
    pub fn child_count(&self) -> (r: usize)
        ensures
            r == self@.children().len(),
    {
        match self {
            Json::Array(items) => items.len(),
            Json::Object(members) => members.len(),
            _ => 0,
        }
    }

    /// The child at index `i`: an element of an array, the value of a member
    /// of an object.
    pub fn child(&self, i: usize) -> (r: &Json)
        requires
            i < self@.children().len(),
        ensures
            r@ == self@.children()[i as int],
    {
        match self {
            Json::Array(items) => &items[i],
            Json::Object(members) => &members[i].value,
            _ => self,
        }
    }

    /// Whether the two values are equal as comparisons see it.
    pub fn same(&self, other: &Json) -> (r: bool)
        ensures
            r == self@.same(other@),
        decreases self, 0nat,
    {
        match (self, other) {
            (Json::Null, Json::Null) => true,
            (Json::Bool(a), Json::Bool(b)) => *a == *b,
            (Json::Number(a), Json::Number(b)) => a.equals(b),
            (Json::String(a), Json::String(b)) => *a == *b,
            (Json::Array(a), Json::Array(b)) => {
                if a.len() != b.len() {
                    return false;
                }
                let mut i: usize = 0;
                while i < a.len()
                    invariant
                        i <= a.len() == b.len(),
                        *self == Json::Array(*a),
                        *other == Json::Array(*b),
                        same_items(self@->Array_0, other@->Array_0, i as nat),
                    decreases a.len() - i,
                {
                    if !a[i].same(&b[i]) {
                        proof {
                            let (x, y) = (self@->Array_0, other@->Array_0);
                            assert(!same_items(x, y, (i + 1) as nat));
                            if same_items(x, y, x.len()) {
                                lemma_same_items_prefix(x, y, (i + 1) as nat, x.len());
                            }
                        }
                        return false;
                    }
                    i += 1;
                }
                true
            },
            (Json::Object(a), Json::Object(b)) => {
                if a.len() != b.len() {
                    return false;
                }
                let mut i: usize = 0;
                while i < a.len()
                    invariant
                        i <= a.len() == b.len(),
                        *self == Json::Object(*a),
                        *other == Json::Object(*b),
                        same_members(self@->Object_0, other@->Object_0, i as nat),
                    decreases a.len() - i,
                {
                    let matched: bool = match find_member_exec(b, a[i].name.as_str()) {
                        Some(j) => a[i].value.same(&b[j].value),
                        None => false,
                    };
                    if !matched {
                        proof {
                            let (x, y) = (self@->Object_0, other@->Object_0);
                            assert(!same_members(x, y, (i + 1) as nat));
                            if same_members(x, y, x.len()) {
                                lemma_same_members_prefix(x, y, (i + 1) as nat, x.len());
                            }
                        }
                        return false;
                    }
                    i += 1;
                }
                true
            },
            _ => false,
        }
    }
}

} // verus!
