//! The columns that the attendance rules keep in the `login` table, and which
//! of them a table still lacks.

use vstd::prelude::*;

verus! {

/// The names of the columns that hold shifts and attendance, in the order in
/// which they are added.
pub open spec fn required_columns() -> Seq<Seq<char>> {
    seq![
        "shifthour"@,
        "shiftminutes"@,
        "shiftendhour"@,
        "shiftendminutes"@,
        "reqtime"@,
        "full"@,
        "notfull"@,
        "notcome"@,
    ]
}

/// The texts of a list of names.
pub open spec fn names_of(names: Seq<String>) -> Seq<Seq<char>> {
    names.map_values(|s: String| s@)
}

/// The names of the columns that hold shifts and attendance.
pub fn required_column_names() -> (r: Vec<String>)
    ensures
        names_of(r@) == required_columns(),
{
    let mut r: Vec<String> = Vec::new();
    r.push("shifthour".to_owned());
    r.push("shiftminutes".to_owned());
    r.push("shiftendhour".to_owned());
    r.push("shiftendminutes".to_owned());
    r.push("reqtime".to_owned());
    r.push("full".to_owned());
    r.push("notfull".to_owned());
    r.push("notcome".to_owned());
    assert(names_of(r@) =~= required_columns());
    r
}

/// Whether `column` is among the column names `names`.
pub fn column_exists(names: &Vec<String>, column: &str) -> (r: bool)
    ensures
        r == names_of(names@).contains(column@),
{
    let wanted = column.to_owned();
    let mut i: usize = 0;
    while i < names.len()
        invariant
            i <= names@.len(),
            wanted@ == column@,
            forall|j: int| 0 <= j < i ==> names@[j]@ != column@,
        decreases names@.len() - i,
    {
        if names[i] == wanted {
            assert(names_of(names@)[i as int] == column@);
            return true;
        }
        i = i + 1;
    }
    proof {
        if names_of(names@).contains(column@) {
            let k = choose|k: int| 0 <= k < names_of(names@).len() && names_of(names@)[k] == column@;
            assert(names@[k]@ == column@);
        }
    }
    false
}

/// The columns of `required_columns` that the table with the columns `existing`
/// lacks, in the order in which they are to be added.
pub fn missing_columns(existing: &Vec<String>) -> (r: Vec<String>)
    ensures
        names_of(r@) == required_columns().filter(
            |c: Seq<char>| !names_of(existing@).contains(c),
        ),
{
    let required = required_column_names();
    let ghost pred = |c: Seq<char>| !names_of(existing@).contains(c);
    let mut r: Vec<String> = Vec::new();
    let mut i: usize = 0;
    while i < required.len()
        invariant
            i <= required@.len(),
            names_of(required@) == required_columns(),
            pred == (|c: Seq<char>| !names_of(existing@).contains(c)),
            names_of(r@) == required_columns().take(i as int).filter(pred),
        decreases required@.len() - i,
    {
        proof {
            reveal_with_fuel(Seq::<_>::filter, 1);
            assert(required_columns().take(i + 1).drop_last() =~= required_columns().take(i as int));
            assert(required_columns().take(i + 1).last() == required@[i as int]@);
        }
        if !column_exists(existing, required[i].as_str()) {
            r.push(required[i].clone());
            assert(names_of(r@) =~= required_columns().take(i as int).filter(pred).push(
                required@[i as int]@,
            ));
        }
        i = i + 1;
    }
    assert(required_columns().take(required@.len() as int) =~= required_columns());
    r
}

/// Adding the missing columns completes a table: once the columns that
/// `missing_columns` names are added, none is missing any more.
pub proof fn lemma_adding_missing_completes(existing: Seq<String>, added: Seq<String>)
    requires
        names_of(added) == required_columns().filter(
            |c: Seq<char>| !names_of(existing).contains(c),
        ),
    ensures
        required_columns().filter(|c: Seq<char>| !names_of(existing + added).contains(c)).len()
            == 0,
{
    let req = required_columns();
    let before = |c: Seq<char>| !names_of(existing).contains(c);
    let after = |c: Seq<char>| !names_of(existing + added).contains(c);
    assert(names_of(existing + added) =~= names_of(existing) + names_of(added));
    assert forall|i: int| 0 <= i < req.len() implies !after(req[i]) by {
        let c = req[i];
        if names_of(existing).contains(c) {
            let k = choose|k: int| 0 <= k < names_of(existing).len() && names_of(existing)[k] == c;
            assert((names_of(existing) + names_of(added))[k] == c);
        } else {
            req.lemma_filter_contains(before, i);
            assert(names_of(added).contains(c));
            let k = choose|k: int| 0 <= k < names_of(added).len() && names_of(added)[k] == c;
            assert((names_of(existing) + names_of(added))[names_of(existing).len() + k] == c);
        }
    }
    req.lemma_all_neg_filter_empty(after);
}

} // verus!
