//! The declared shape of the table: one column clause for each property,
//! the two base columns always among them.

use crate::property_map::{
    ascending, lemma_listing_exists, lemma_listing_unique, listing, lists, map_of, pair_views,
    Pair, Properties,
};
use crate::text::before_at;
use vstd::prelude::*;
use vstd::string::*;

verus! {

/// The clause that declares one column: the name in double quotes, a space,
/// the type.
pub open spec fn column_clause(column: Pair) -> Seq<char> {
    "\""@ + column.0 + "\" "@ + column.1
}

/// The clauses of `columns` in their order, separated by a comma, a line
/// break and four spaces.
pub open spec fn joined_clauses(columns: Seq<Pair>) -> Seq<char>
    decreases columns.len(),
{
    if columns.len() == 0 {
        Seq::empty()
    } else if columns.len() == 1 {
        column_clause(columns[0])
    } else {
        joined_clauses(columns.drop_last()) + ",\n    "@ + column_clause(columns.last())
    }
}

/// The table definition that declares `columns` in their order.
pub open spec fn table_definition(columns: Seq<Pair>) -> Seq<char> {
    "CREATE TABLE x(\n    "@ + joined_clauses(columns) + "\n);"@
}

/// The table definition for the properties `types`, each name with its type:
/// the columns stand in ascending order of their names.
pub open spec fn schema_text(types: Map<Seq<char>, Seq<char>>) -> Seq<char> {
    table_definition(listing(types))
}

/// The declared properties with the two base columns put in as `TEXT`,
/// whatever was declared under their names.
pub open spec fn with_base_columns(declared: Map<Seq<char>, Seq<char>>) -> Map<
    Seq<char>,
    Seq<char>,
> {
    declared.insert("file_path"@, "TEXT"@).insert("file_contents"@, "TEXT"@)
}

/// The table definition for the declared properties together with the base
/// columns `file_path` and `file_contents`, which are always `TEXT`.
pub fn sql_schema_from_properties(properties: Properties) -> (schema: String)
    ensures
        schema@ == schema_text(with_base_columns(properties@)),
        lists(listing(with_base_columns(properties@)), with_base_columns(properties@)),
{
    let mut props = properties;
    props.insert("file_path".to_owned(), "TEXT".to_owned());
    props.insert("file_contents".to_owned(), "TEXT".to_owned());
    sql_schema_from_map(props)
}

/// The table definition that declares exactly the properties given, in
/// ascending order of their names.
pub fn sql_schema_from_map(properties: Properties) -> (schema: String)
    ensures
        schema@ == schema_text(properties@),
        lists(listing(properties@), properties@),
{
    let columns = properties.ascending_pairs();
    let ghost listed = pair_views(columns@);
    proof {
        properties.lemma_finite();
        lemma_listing_exists(properties@);
        lemma_listing_unique(listed, listing(properties@), properties@);
    }
    let mut schema = String::from_str("CREATE TABLE x(\n    ");
    let mut i: usize = 0;
    while i < columns.len()
        invariant
            i <= columns.len(),
            listed == pair_views(columns@),
            schema@ == "CREATE TABLE x(\n    "@ + joined_clauses(listed.take(i as int)),
        decreases columns.len() - i,
    {
        if i > 0 {
            schema.append(",\n    ");
        }
        schema.append("\"");
        schema.append(columns[i].0.as_str());
        schema.append("\" ");
        schema.append(columns[i].1.as_str());
        proof {
            let next = listed.take(i + 1);
            assert(next.drop_last() =~= listed.take(i as int));
            assert(next.last() == listed[i as int]);
            assert(next[0] == listed[0]);
            assert(schema@ =~= "CREATE TABLE x(\n    "@ + joined_clauses(next));
        }
        i += 1;
    }
    assert(listed.take(i as int) =~= listed);
    schema.append("\n);");
    schema
}

/// The columns of a schema stand in ascending order of their names, one for
/// each property, whatever the order in which the properties were declared.
pub proof fn lemma_schema_columns_ascend(types: Map<Seq<char>, Seq<char>>)
    requires
        types.dom().finite(),
    ensures
        schema_text(types) == table_definition(listing(types)),
        ascending(listing(types)),
        lists(listing(types), types),
{
    lemma_listing_exists(types);
}

/// Two runs of declarations that build the same properties give the same
/// schema, whatever the order of the declarations.
pub proof fn lemma_schema_ignores_order(first: Seq<Pair>, second: Seq<Pair>)
    requires
        map_of(first) == map_of(second),
    ensures
        schema_text(with_base_columns(map_of(first))) == schema_text(
            with_base_columns(map_of(second)),
        ),
{
}

/// The two base columns are two different names.
pub proof fn lemma_base_names_differ()
    ensures
        "file_path"@ != "file_contents"@,
{
    reveal_strlit("file_path");
    reveal_strlit("file_contents");
    assert("file_path"@.len() != "file_contents"@.len());
}

/// The base columns are declared as `TEXT`, also where a property of their
/// name was declared with another type: the schema holds the two columns
/// with that type and no other column of their names.
pub proof fn lemma_base_columns_are_text(declared: Map<Seq<char>, Seq<char>>)
    requires
        declared.dom().finite(),
    ensures
        with_base_columns(declared).contains_pair("file_path"@, "TEXT"@),
        with_base_columns(declared).contains_pair("file_contents"@, "TEXT"@),
        forall|i: int|
            #![trigger listing(with_base_columns(declared))[i]]
            0 <= i < listing(with_base_columns(declared)).len() && (listing(
                with_base_columns(declared),
            )[i].0 == "file_path"@ || listing(with_base_columns(declared))[i].0
                == "file_contents"@) ==> listing(with_base_columns(declared))[i].1 == "TEXT"@,
        exists|i: int|
            0 <= i < listing(with_base_columns(declared)).len() && listing(
                with_base_columns(declared),
            )[i] == ("file_path"@, "TEXT"@),
        exists|i: int|
            0 <= i < listing(with_base_columns(declared)).len() && listing(
                with_base_columns(declared),
            )[i] == ("file_contents"@, "TEXT"@),
{
    let columns = with_base_columns(declared);
    let listed = listing(columns);
    lemma_base_names_differ();
    lemma_listing_exists(columns);
    assert(columns.contains_key("file_path"@));
    assert(columns.contains_key("file_contents"@));
    let p = choose|i: int| 0 <= i < listed.len() && listed[i].0 == "file_path"@;
    assert(columns.contains_pair(listed[p].0, listed[p].1));
    let c = choose|i: int| 0 <= i < listed.len() && listed[i].0 == "file_contents"@;
    assert(columns.contains_pair(listed[c].0, listed[c].1));
    assert forall|i: int|
        #![trigger listed[i]]
        0 <= i < listed.len() && (listed[i].0 == "file_path"@ || listed[i].0
            == "file_contents"@) implies listed[i].1 == "TEXT"@ by {
        assert(columns.contains_pair(listed[i].0, listed[i].1));
    }
}

/// Where nothing is declared the schema holds the two base columns, the
/// contents before the path.
pub proof fn lemma_base_listing()
    ensures
        listing(with_base_columns(Map::empty())) == seq![
            ("file_contents"@, "TEXT"@),
            ("file_path"@, "TEXT"@),
        ],
{
    let columns = with_base_columns(Map::empty());
    let listed: Seq<Pair> = seq![("file_contents"@, "TEXT"@), ("file_path"@, "TEXT"@)];
    reveal_strlit("file_path");
    reveal_strlit("file_contents");
    assert(before_at("file_contents"@, "file_path"@, 5));
    assert(lists(listed, columns));
    lemma_listing_exists(columns);
    lemma_listing_unique(listed, listing(columns), columns);
}

} // verus!
