//! Where the errors of a validation say that they are.

use vstd::prelude::*;

use crate::json::{field, items_of, lookup, members_of, JsonView, Members};
use crate::text::{decimal, starts_with};
use crate::tool_validation::{
    all_errors, array_errors, content_errors, each_errors, errors_of, item_path,
    lemma_field_decreases, lemma_last_decreases, lemma_last_member_decreases, member_path,
    object_errors, pairwise_errors, property_errors, required_errors, texts_of, unexpected_errors,
};

verus! {

/// Each of some errors begins with the place where it is.
pub open spec fn are_at(errors: Seq<Seq<char>>, path: Seq<char>) -> bool {
    forall|i: int| 0 <= i < errors.len() ==> starts_with(#[trigger] errors[i], path)
}

/// Each error of a value begins with the place of the value, and those of what is in it
/// too. At the root, the place of a member is its name alone.
pub proof fn law_errors_name_their_place(value: JsonView, schema: JsonView, path: Seq<char>)
    requires
        path != "root"@,
    ensures
        are_at(errors_of(value, schema, path), path),
    decreases schema, 2nat,
{
    lemma_begins_with(path);
    lemma_content_at(value, schema, path);
}

/// The place of a member: its name, below the place of its object where that is not the
/// root.
pub open spec fn place_of_member(path: Seq<char>, name: Seq<char>) -> Seq<char> {
    if path == "root"@ {
        name
    } else {
        path + "."@ + name
    }
}

/// Each of some errors is one of others.
pub open spec fn are_among(errors: Seq<Seq<char>>, all: Seq<Seq<char>>) -> bool {
    forall|k: int| 0 <= k < errors.len() ==> all.contains(#[trigger] errors[k])
}

/// The errors of a member are told under its place. A member that is missing is told
/// under its name.
pub proof fn law_member_errors_name_the_member(
    members: Members,
    properties: Members,
    required: Seq<Seq<char>>,
    path: Seq<char>,
    i: int,
)
    requires
        0 <= i < properties.len(),
    ensures
        lookup(members, properties[i].0) matches Some(value) ==> are_among(
            errors_of(value, properties[i].1, place_of_member(path, properties[i].0)),
            property_errors(members, properties, path),
        ),
        forall|k: int|
            0 <= k < required.len() && lookup(members, #[trigger] required[k]) is None
                ==> required_errors(members, required, "root"@).contains(
                required[k] + ": required"@,
            ),
{
    lemma_required_are_told(members, required);
    lemma_property_errors_are_told(members, properties, path, i);
}

proof fn lemma_property_errors_are_told(
    members: Members,
    properties: Members,
    path: Seq<char>,
    i: int,
)
    requires
        0 <= i < properties.len(),
    ensures
        lookup(members, properties[i].0) matches Some(value) ==> are_among(
            errors_of(value, properties[i].1, place_of_member(path, properties[i].0)),
            property_errors(members, properties, path),
        ),
    decreases properties.len(),
{
    let front = properties.drop_last();
    let n = properties.len() - 1;
    let all = property_errors(members, properties, path);
    let others = property_errors(members, front, path);
    assert(forall|m: int| 0 <= m < others.len() ==> #[trigger] all[m] == others[m]);
    if let Some(value) = lookup(members, properties[i].0) {
        let errors = errors_of(
            value,
            properties[i].1,
            place_of_member(path, properties[i].0),
        );
        if i < n {
            lemma_property_errors_are_told(members, front, path, i);
            assert(front[i] == properties[i]);
            assert(are_among(errors, others));
            assert forall|k: int| 0 <= k < errors.len() implies all.contains(
                #[trigger] errors[k],
            ) by {
                let m = choose|m: int| 0 <= m < others.len() && others[m] == errors[k];
                assert(all[m] == errors[k]);
            }
        } else {
            assert(all == others + errors);
            assert forall|k: int| 0 <= k < errors.len() implies all.contains(
                #[trigger] errors[k],
            ) by {
                assert(all[others.len() + k] == errors[k]);
            }
        }
    }
}

proof fn lemma_required_are_told(members: Members, required: Seq<Seq<char>>)
    ensures
        forall|k: int|
            0 <= k < required.len() && lookup(members, #[trigger] required[k]) is None
                ==> required_errors(members, required, "root"@).contains(
                required[k] + ": required"@,
            ),
    decreases required.len(),
{
    if required.len() > 0 {
        let front = required.drop_last();
        let n = required.len() - 1;
        lemma_required_are_told(members, front);
        let all = required_errors(members, required, "root"@);
        let others = required_errors(members, front, "root"@);
        assert forall|k: int|
            0 <= k < required.len() && lookup(members, #[trigger] required[k]) is None implies all.contains(
            required[k] + ": required"@,
        ) by {
            if k < n {
                assert(front[k] == required[k]);
                assert(others.contains(required[k] + ": required"@));
                let m = choose|m: int|
                    0 <= m < others.len() && others[m] == required[k] + ": required"@;
                assert(all[m] == others[m]);
            } else {
                assert(all.last() == required[k] + ": required"@);
            }
        }
    }
}

/// The errors of an item are told under its number, below the place of the array.
pub proof fn law_item_errors_name_the_item(
    items: Seq<JsonView>,
    schema: JsonView,
    path: Seq<char>,
    i: int,
)
    requires
        0 <= i < items.len(),
    ensures
        are_among(
            errors_of(items[i], schema, path + "."@ + decimal(i as nat)),
            each_errors(items, schema, path),
        ),
    decreases items.len(),
{
    let front = items.drop_last();
    let all = each_errors(items, schema, path);
    let others = each_errors(front, schema, path);
    let errors = errors_of(items[i], schema, path + "."@ + decimal(i as nat));
    if i < items.len() - 1 {
        law_item_errors_name_the_item(front, schema, path, i);
        assert(front[i] == items[i]);
        assert forall|k: int| 0 <= k < errors.len() implies all.contains(#[trigger] errors[k]) by {
            let m = choose|m: int| 0 <= m < others.len() && others[m] == errors[k];
            assert(all[m] == errors[k]);
        }
    } else {
        assert forall|k: int| 0 <= k < errors.len() implies all.contains(#[trigger] errors[k]) by {
            assert(all[others.len() + k] == errors[k]);
        }
    }
}

proof fn lemma_begins_with(path: Seq<char>)
    ensures
        forall|rest: Seq<char>| starts_with(#[trigger] (path + rest), path),
        forall|a: Seq<char>, b: Seq<char>| starts_with(#[trigger] (path + a + b), path),
{
    assert forall|rest: Seq<char>| starts_with(#[trigger] (path + rest), path) by {
        assert((path + rest).subrange(0, path.len() as int) =~= path);
    }
    assert forall|a: Seq<char>, b: Seq<char>| starts_with(#[trigger] (path + a + b), path) by {
        assert((path + a + b).subrange(0, path.len() as int) =~= path);
    }
}

/// What is below a place is not the root, and errors there are at the place too.
proof fn lemma_below(path: Seq<char>, rest: Seq<char>, errors: Seq<Seq<char>>)
    ensures
        path + "."@ + rest != "root"@,
        are_at(errors, path + "."@ + rest) ==> are_at(errors, path),
{
    reveal_strlit(".");
    reveal_strlit("root");
    let below = path + "."@ + rest;
    assert(below[path.len() as int] == '.');
    let n = path.len() as int;
    if below == "root"@ {
        assert(below.len() == n + 1 + rest.len());
        assert("root"@.len() == 4);
        assert("root"@[0] == 'r' && "root"@[1] == 'o' && "root"@[2] == 'o' && "root"@[3] == 't');
        assert("root"@[n] == '.');
    }
    if are_at(errors, below) {
        assert forall|i: int| 0 <= i < errors.len() implies starts_with(#[trigger] errors[i], path) by {
            let e = errors[i];
            assert(e.subrange(0, below.len() as int) == below);
            assert(e.subrange(0, n) =~= below.subrange(0, n));
            assert(below.subrange(0, n) =~= path);
        }
    }
}

proof fn lemma_content_at(value: JsonView, schema: JsonView, path: Seq<char>)
    requires
        path != "root"@,
    ensures
        are_at(content_errors(value, schema, path), path),
    decreases schema, 1nat,
{
    lemma_begins_with(path);
    lemma_field_decreases(schema, "allOf"@);
    if let Some(schemas) = items_of(field(schema, "allOf"@)) {
        lemma_all_at(value, schemas, path);
    }
    match value {
        JsonView::Object(members) => {
            lemma_object_at(members, schema, path);
        },
        JsonView::Array(items) => {
            lemma_array_at(items, schema, path);
        },
        _ => {},
    }
}

proof fn lemma_all_at(value: JsonView, schemas: Seq<JsonView>, path: Seq<char>)
    requires
        path != "root"@,
    ensures
        are_at(all_errors(value, schemas, path), path),
    decreases schemas, 0nat,
{
    if schemas.len() > 0 {
        lemma_last_decreases(schemas);
        lemma_all_at(value, schemas.drop_last(), path);
        law_errors_name_their_place(value, schemas.last(), path);
    }
}

proof fn lemma_required_at(members: Members, required: Seq<Seq<char>>, path: Seq<char>)
    requires
        path != "root"@,
    ensures
        are_at(required_errors(members, required, path), path),
    decreases required.len(),
{
    if required.len() > 0 {
        lemma_required_at(members, required.drop_last(), path);
        let e = member_path(path, required.last()) + ": required"@;
        assert(e.subrange(0, path.len() as int) =~= path);
    }
}

proof fn lemma_unexpected_at(members: Members, properties: Members, path: Seq<char>)
    requires
        path != "root"@,
    ensures
        are_at(unexpected_errors(members, properties, path), path),
    decreases members.len(),
{
    if members.len() > 0 {
        lemma_unexpected_at(members.drop_last(), properties, path);
        let e = member_path(path, members.last().0) + ": unexpected property"@;
        assert(e.subrange(0, path.len() as int) =~= path);
    }
}

proof fn lemma_object_at(members: Members, schema: JsonView, path: Seq<char>)
    requires
        path != "root"@,
    ensures
        are_at(object_errors(members, schema, path), path),
    decreases schema, 0nat,
{
    lemma_field_decreases(schema, "properties"@);
    if let Some(required) = items_of(field(schema, "required"@)) {
        lemma_required_at(members, texts_of(required), path);
    }
    if let Some(properties) = members_of(field(schema, "properties"@)) {
        lemma_properties_at(members, properties, path);
        lemma_unexpected_at(members, properties, path);
    }
}

proof fn lemma_properties_at(members: Members, properties: Members, path: Seq<char>)
    requires
        path != "root"@,
    ensures
        are_at(property_errors(members, properties, path), path),
    decreases properties, 0nat,
{
    if properties.len() > 0 {
        lemma_last_member_decreases(properties);
        lemma_properties_at(members, properties.drop_last(), path);
        let (name, schema) = properties.last();
        if let Some(value) = lookup(members, name) {
            let place = member_path(path, name);
            let errors = errors_of(value, properties.last().1, place);
            lemma_below(path, name, errors);
            law_errors_name_their_place(value, properties.last().1, place);
        }
    }
}

proof fn lemma_array_at(items: Seq<JsonView>, schema: JsonView, path: Seq<char>)
    requires
        path != "root"@,
    ensures
        are_at(array_errors(items, schema, path), path),
    decreases schema, 0nat,
{
    lemma_begins_with(path);
    lemma_field_decreases(schema, "items"@);
    match field(schema, "items"@) {
        Some(JsonView::Array(schemas)) => {
            lemma_pairwise_at(items, schemas, path);
        },
        Some(JsonView::Object(members)) => {
            lemma_each_at(items, field(schema, "items"@)->0, path);
        },
        _ => {},
    }
}

proof fn lemma_pairwise_at(items: Seq<JsonView>, schemas: Seq<JsonView>, path: Seq<char>)
    requires
        path != "root"@,
    ensures
        are_at(pairwise_errors(items, schemas, path), path),
    decreases schemas, 0nat,
{
    if schemas.len() > 0 {
        lemma_last_decreases(schemas);
        lemma_pairwise_at(items, schemas.drop_last(), path);
        let index = (schemas.len() - 1) as nat;
        if index < items.len() {
            let place = item_path(path, index);
            let errors = errors_of(items[index as int], schemas.last(), place);
            lemma_below(path, decimal(index), errors);
            law_errors_name_their_place(items[index as int], schemas.last(), place);
        }
    }
}

proof fn lemma_each_at(items: Seq<JsonView>, schema: JsonView, path: Seq<char>)
    requires
        path != "root"@,
    ensures
        are_at(each_errors(items, schema, path), path),
    decreases schema, items.len() + 3,
{
    if items.len() > 0 {
        lemma_each_at(items.drop_last(), schema, path);
        let index = (items.len() - 1) as nat;
        let place = item_path(path, index);
        lemma_below(path, decimal(index), errors_of(items.last(), schema, place));
        law_errors_name_their_place(items.last(), schema, place);
    }
}

} // verus!
