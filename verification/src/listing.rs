//! What an exchange lists of its symbols: trading filters and their values.
use crate::text::same;
use vstd::prelude::*;
use vstd::string::*;

verus! {

/// A filter's text field.
#[derive(Debug)]
pub struct FilterField {
    pub name: String,
    pub value: String,
}

/// One trading filter of a symbol.
#[derive(Debug)]
pub struct Filter {
    pub filter_type: Option<String>,
    pub fields: Vec<FilterField>,
}

/// The value of the first field of the name.
pub open spec fn field_value(fields: Seq<FilterField>, name: Seq<char>) -> Option<Seq<char>>
    decreases fields.len(),
{
    if fields.len() == 0 {
        None
    } else if fields[0].name@ == name {
        Some(fields[0].value@)
    } else {
        field_value(fields.drop_first(), name)
    }
}

/// The value of the field in the first filter of the type.
pub open spec fn filter_value(
    filters: Seq<Filter>,
    filter_type: Seq<char>,
    name: Seq<char>,
) -> Option<Seq<char>>
    decreases filters.len(),
{
    if filters.len() == 0 {
        None
    } else if crate::text::opt_view(filters[0].filter_type) == Some(filter_type) {
        field_value(filters[0].fields@, name)
    } else {
        filter_value(filters.drop_first(), filter_type, name)
    }
}

/// The first field of a name has its value.
pub proof fn law_first_field_counts(fields: Seq<FilterField>, name: Seq<char>, i: int)
    requires
        0 <= i < fields.len(),
        fields[i].name@ == name,
        forall|j: int| 0 <= j < i ==> (#[trigger] fields[j]).name@ != name,
    ensures
        field_value(fields, name) == Some(fields[i].value@),
    decreases fields.len(),
{
    if i > 0 {
        let rest = fields.drop_first();
        assert(fields[0].name@ != name);
        assert(rest[i - 1] == fields[i]);
        assert forall|j: int| 0 <= j < i - 1 implies (#[trigger] rest[j]).name@ != name by {
            assert(rest[j] == fields[j + 1]);
        }
        law_first_field_counts(rest, name, i - 1);
    }
}

/// Without a field of the name there is no value.
pub proof fn law_absent_field_has_no_value(fields: Seq<FilterField>, name: Seq<char>)
    requires
        forall|j: int| 0 <= j < fields.len() ==> (#[trigger] fields[j]).name@ != name,
    ensures
        field_value(fields, name) is None,
    decreases fields.len(),
{
    if fields.len() > 0 {
        let rest = fields.drop_first();
        assert(fields[0].name@ != name);
        assert forall|j: int| 0 <= j < rest.len() implies (#[trigger] rest[j]).name@ != name by {
            assert(rest[j] == fields[j + 1]);
        }
        law_absent_field_has_no_value(rest, name);
    }
}

/// A filter of the type.
pub open spec fn of_type(f: Filter, filter_type: Seq<char>) -> bool {
    f.filter_type matches Some(t) && t@ == filter_type
}

/// The first filter of a type is asked, and no other: where it has no such field
/// there is no value.
pub proof fn law_first_filter_counts(
    filters: Seq<Filter>,
    filter_type: Seq<char>,
    name: Seq<char>,
    i: int,
)
    requires
        0 <= i < filters.len(),
        of_type(filters[i], filter_type),
        forall|j: int| 0 <= j < i ==> !of_type(#[trigger] filters[j], filter_type),
    ensures
        filter_value(filters, filter_type, name) == field_value(filters[i].fields@, name),
    decreases filters.len(),
{
    if i > 0 {
        let rest = filters.drop_first();
        assert(!of_type(filters[0], filter_type));
        assert(rest[i - 1] == filters[i]);
        assert forall|j: int| 0 <= j < i - 1 implies !of_type(#[trigger] rest[j], filter_type) by {
            assert(rest[j] == filters[j + 1]);
        }
        law_first_filter_counts(rest, filter_type, name, i - 1);
    }
}

/// Without a filter of the type there is no value.
pub proof fn law_absent_filter_has_no_value(
    filters: Seq<Filter>,
    filter_type: Seq<char>,
    name: Seq<char>,
)
    requires
        forall|j: int| 0 <= j < filters.len() ==> !of_type(#[trigger] filters[j], filter_type),
    ensures
        filter_value(filters, filter_type, name) is None,
    decreases filters.len(),
{
    if filters.len() > 0 {
        let rest = filters.drop_first();
        assert(!of_type(filters[0], filter_type));
        assert forall|j: int| 0 <= j < rest.len() implies !of_type(
            #[trigger] rest[j],
            filter_type,
        ) by {
            assert(rest[j] == filters[j + 1]);
        }
        law_absent_filter_has_no_value(rest, filter_type, name);
    }
}

fn field_text(fields: &Vec<FilterField>, name: &str) -> (r: Option<String>)
    ensures
        crate::text::opt_view(r) == field_value(fields@, name@),
{
    let mut i: usize = 0;
    assert(fields@.skip(0) =~= fields@);
    while i < fields.len()
        invariant
            i <= fields@.len(),
            field_value(fields@, name@) == field_value(fields@.skip(i as int), name@),
        decreases fields@.len() - i,
    {
        assert(fields@.skip(i as int).drop_first() =~= fields@.skip(i + 1));
        if same(fields[i].name.as_str(), name) {
            return Some(fields[i].value.clone());
        }
        i = i + 1;
    }
    None
}

/// The value of a filter's field, if it is there.
pub fn filter_text(filters: &Vec<Filter>, filter_type: &str, name: &str) -> (r: Option<String>)
    ensures
        crate::text::opt_view(r) == filter_value(filters@, filter_type@, name@),
{
    let mut i: usize = 0;
    assert(filters@.skip(0) =~= filters@);
    while i < filters.len()
        invariant
            i <= filters@.len(),
            filter_value(filters@, filter_type@, name@) == filter_value(
                filters@.skip(i as int),
                filter_type@,
                name@,
            ),
        decreases filters@.len() - i,
    {
        assert(filters@.skip(i as int).drop_first() =~= filters@.skip(i + 1));
        let hit: bool = match &filters[i].filter_type {
            Some(t) => same(t.as_str(), filter_type),
            None => false,
        };
        if hit {
            return field_text(&filters[i].fields, name);
        }
        i = i + 1;
    }
    None
}

} // verus!
