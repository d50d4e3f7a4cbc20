//! The user records that the listing API hands back, modelled with plain
//! values: timestamps are whole seconds since the Unix epoch.

use vstd::prelude::*;

verus! {

/// One name/value pair attached to a user record. The value may be absent.
#[derive(Clone, Debug, PartialEq)]
pub struct AttributeType {
    pub name: String,
    pub value: Option<String>,
}

/// A user record of a pool: identifier, attribute pairs (order-preserving),
/// creation and last-modification timestamps in whole seconds since the
/// Unix epoch, enabled flag, and a status string (an open set of values).
#[derive(Clone, Debug, PartialEq)]
pub struct UserType {
    pub username: Option<String>,
    pub attributes: Option<Vec<AttributeType>>,
    pub user_create_date: Option<i64>,
    pub user_last_modified_date: Option<i64>,
    pub enabled: Option<bool>,
    pub user_status: Option<String>,
}

/// The identifier used by the filters: the username, or the empty string
/// when the record carries none.
pub open spec fn spec_username(u: UserType) -> Seq<char> {
    match u.username {
        Some(s) => s@,
        None => Seq::empty(),
    }
}

/// The first attribute of the list whose name is `name`, if any.
pub open spec fn find_attr(attrs: Seq<AttributeType>, name: Seq<char>) -> Option<AttributeType>
    decreases attrs.len(),
{
    if attrs.len() == 0 {
        None
    } else if attrs[0].name@ == name {
        Some(attrs[0])
    } else {
        find_attr(attrs.drop_first(), name)
    }
}

/// What `get_attribute` returns: the empty string when the record has no
/// attribute list, the placeholder `"None"` when the attribute is missing,
/// and otherwise the value of the first attribute of that name.
pub open spec fn spec_attribute(u: UserType, name: Seq<char>) -> Seq<char> {
    match u.attributes {
        None => Seq::empty(),
        Some(attrs) => match find_attr(attrs@, name) {
            None => "None"@,
            Some(a) => match a.value {
                Some(v) => v@,
                None => Seq::empty(),
            },
        },
    }
}

/// Looking up `name` in `u` does not run into an attribute without a value.
pub open spec fn attr_has_value(u: UserType, name: Seq<char>) -> bool {
    match u.attributes {
        None => true,
        Some(attrs) => match find_attr(attrs@, name) {
            None => true,
            Some(a) => a.value is Some,
        },
    }
}

/// The key the users are ordered by: the creation timestamp, with records
/// that carry none sorting before every dated record.
pub open spec fn creation_key(u: UserType) -> int {
    match u.user_create_date {
        Some(t) => t as int,
        None => i64::MIN - 1,
    }
}

/// The text standing for one attribute value: the value itself, or the
/// placeholder `"No Value"` when the pair carries none.
pub open spec fn attr_value_text(a: AttributeType) -> Seq<char> {
    match a.value {
        Some(v) => v@,
        None => "No Value"@,
    }
}

/// The attribute values joined by `sep`. The separator is only written
/// after non-empty text so far, as a left fold over the pairs builds it.
pub open spec fn join_values(attrs: Seq<AttributeType>, sep: Seq<char>) -> Seq<char>
    decreases attrs.len(),
{
    if attrs.len() == 0 {
        Seq::empty()
    } else {
        let prev = join_values(attrs.drop_last(), sep);
        if prev.len() == 0 {
            attr_value_text(attrs.last())
        } else {
            prev + sep + attr_value_text(attrs.last())
        }
    }
}

/// The attribute names joined by `sep`, in the same fold shape.
pub open spec fn join_keys(attrs: Seq<AttributeType>, sep: Seq<char>) -> Seq<char>
    decreases attrs.len(),
{
    if attrs.len() == 0 {
        Seq::empty()
    } else {
        let prev = join_keys(attrs.drop_last(), sep);
        if prev.len() == 0 {
            attrs.last().name@
        } else {
            prev + sep + attrs.last().name@
        }
    }
}

/// What `attributes_values_to_string` returns: empty without an attribute
/// list, the joined values otherwise.
pub open spec fn values_text(u: UserType, sep: Seq<char>) -> Seq<char> {
    match u.attributes {
        None => Seq::empty(),
        Some(attrs) => join_values(attrs@, sep),
    }
}

/// What `attributes_keys_to_string` returns.
pub open spec fn keys_text(u: UserType, sep: Seq<char>) -> Seq<char> {
    match u.attributes {
        None => Seq::empty(),
        Some(attrs) => join_keys(attrs@, sep),
    }
}

/// The record carries an email attribute.
pub open spec fn has_email(u: UserType) -> bool {
    match u.attributes {
        None => false,
        Some(attrs) => find_attr(attrs@, "email"@) is Some,
    }
}

/// The email value that the filters compare against.
pub open spec fn spec_email(u: UserType) -> Seq<char> {
    spec_attribute(u, "email"@)
}

impl UserType {
    /// The creation timestamp in whole seconds since the Unix epoch.
    pub fn creation_date(&self) -> (t: i64)
        requires
            self.user_create_date is Some,
        ensures
            self.user_create_date == Some(t),
    {
        match self.user_create_date {
            Some(t) => t,
            None => {
                proof {
                    assert(false);
                }
                0
            },
        }
    }

    /// The value of the first attribute named `name`: the empty string when
    /// the record has no attribute list, `"None"` when no attribute of that
    /// name exists.
    pub fn get_attribute(&self, name: &str) -> (r: String)
        requires
            attr_has_value(*self, name@),
        ensures
            r@ == spec_attribute(*self, name@),
    {
        match &self.attributes {
            None => String::new(),
            Some(attrs) => {
                let wanted: String = name.to_owned();
                let n: usize = attrs.len();
                let mut i: usize = 0;
                proof {
                    assert(attrs@.skip(0) =~= attrs@);
                }
                while i < n
                    invariant
                        n == attrs.len(),
                        0 <= i <= n,
                        self.attributes == Some(*attrs),
                        attr_has_value(*self, name@),
                        find_attr(attrs@, name@) == find_attr(attrs@.skip(i as int), name@),
                        wanted@ == name@,
                    decreases n - i,
                {
                    let a = &attrs[i];
                    proof {
                        assert(attrs@.skip(i as int)[0] == attrs@[i as int]);
                        assert(attrs@.skip(i as int).drop_first() =~= attrs@.skip(i + 1));
                    }
                    if a.name.eq(&wanted) {
                        proof {
                            assert(find_attr(attrs@.skip(i as int), name@)
                                == Some(attrs@[i as int]));
                        }
                        match &a.value {
                            Some(v) => {
                                return v.clone();
                            },
                            None => {
                                proof {
                                    assert(false);
                                }
                                return String::new();
                            },
                        }
                    }
                    i = i + 1;
                }
                proof {
                    assert(attrs@.skip(n as int) =~= Seq::<AttributeType>::empty());
                }
                String::from_str("None")
            },
        }
    }

    /// The email attribute's value, with the same conventions as
    /// `get_attribute`.
    pub fn get_email(&self) -> (r: String)
        requires
            attr_has_value(*self, "email"@),
        ensures
            r@ == spec_email(*self),
    {
        self.get_attribute("email")
    }

    /// The attribute values joined by `separator`, a missing value
    /// rendered as `"No Value"`.
    pub fn attributes_values_to_string(&self, separator: &str) -> (r: String)
        ensures
            r@ == values_text(*self, separator@),
    {
        match &self.attributes {
            None => String::new(),
            Some(attrs) => {
                let n: usize = attrs.len();
                let mut acc = String::new();
                let mut i: usize = 0;
                while i < n
                    invariant
                        n == attrs.len(),
                        0 <= i <= n,
                        acc@ == join_values(attrs@.subrange(0, i as int), separator@),
                    decreases n - i,
                {
                    proof {
                        assert(attrs@.subrange(0, i + 1).drop_last() =~= attrs@.subrange(
                            0,
                            i as int,
                        ));
                        assert(attrs@.subrange(0, i + 1).last() == attrs@[i as int]);
                    }
                    let piece = attr_value_string(&attrs[i]);
                    if acc.as_str().is_empty() {
                        acc = piece;
                    } else {
                        acc.append(separator);
                        acc.append(piece.as_str());
                    }
                    i = i + 1;
                }
                proof {
                    assert(attrs@.subrange(0, n as int) =~= attrs@);
                }
                acc
            },
        }
    }

    /// The attribute names joined by `separator`.
    pub fn attributes_keys_to_string(&self, separator: &str) -> (r: String)
        ensures
            r@ == keys_text(*self, separator@),
    {
        match &self.attributes {
            None => String::new(),
            Some(attrs) => {
                let n: usize = attrs.len();
                let mut acc = String::new();
                let mut i: usize = 0;
                while i < n
                    invariant
                        n == attrs.len(),
                        0 <= i <= n,
                        acc@ == join_keys(attrs@.subrange(0, i as int), separator@),
                    decreases n - i,
                {
                    proof {
                        assert(attrs@.subrange(0, i + 1).drop_last() =~= attrs@.subrange(
                            0,
                            i as int,
                        ));
                        assert(attrs@.subrange(0, i + 1).last() == attrs@[i as int]);
                    }
                    let piece = attrs[i].name.clone();
                    if acc.as_str().is_empty() {
                        acc = piece;
                    } else {
                        acc.append(separator);
                        acc.append(piece.as_str());
                    }
                    i = i + 1;
                }
                proof {
                    assert(attrs@.subrange(0, n as int) =~= attrs@);
                }
                acc
            },
        }
    }
}

/// The text for one attribute value, `"No Value"` when it is absent.
fn attr_value_string(a: &AttributeType) -> (r: String)
    ensures
        r@ == attr_value_text(*a),
{
    match &a.value {
        Some(v) => v.clone(),
        None => String::from_str("No Value"),
    }
}

} // verus!
