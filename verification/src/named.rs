//! Lists of named values: pairs of a name and a value, looked up by the first
//! pair of a name.

use vstd::prelude::*;

verus! {

/// Whether `i` is the place of the first pair in `fields` whose name is `name`.
pub open spec fn is_first<V>(fields: Seq<(Seq<char>, V)>, name: Seq<char>, i: int) -> bool {
    &&& 0 <= i < fields.len()
    &&& fields[i].0 == name
    &&& forall|j: int| 0 <= j < i ==> (#[trigger] fields[j]).0 != name
}

/// Whether some pair in `fields` has the name `name`.
pub open spec fn has_field<V>(fields: Seq<(Seq<char>, V)>, name: Seq<char>) -> bool {
    exists|i: int| is_first(fields, name, i)
}

/// The place of the first pair in `fields` whose name is `name`, where there is one.
pub open spec fn field_index<V>(fields: Seq<(Seq<char>, V)>, name: Seq<char>) -> int {
    choose|i: int| is_first(fields, name, i)
}

/// The value of the first pair in `fields` whose name is `name`.
pub open spec fn first_field<V>(fields: Seq<(Seq<char>, V)>, name: Seq<char>) -> Option<V> {
    if has_field(fields, name) {
        Some(fields[field_index(fields, name)].1)
    } else {
        None
    }
}

/// Whether no two pairs in `fields` have the same name.
pub open spec fn distinct_names<V>(fields: Seq<(Seq<char>, V)>) -> bool {
    forall|i: int, j: int|
        0 <= i < j < fields.len() ==> (#[trigger] fields[i]).0 != (#[trigger] fields[j]).0
}

/// `fields` with `value` under `name`: in place of the first pair of that name,
/// or at the end where there is none.
pub open spec fn upsert<V>(fields: Seq<(Seq<char>, V)>, name: Seq<char>, value: V) -> Seq<(Seq<char>, V)> {
    if has_field(fields, name) {
        fields.update(field_index(fields, name), (name, value))
    } else {
        fields.push((name, value))
    }
}

/// A first pair of a given name is the only first one.
pub proof fn lemma_first_is_index<V>(fields: Seq<(Seq<char>, V)>, name: Seq<char>, i: int)
    requires
        is_first(fields, name, i),
    ensures
        has_field(fields, name),
        field_index(fields, name) == i,
        first_field(fields, name) == Some(fields[i].1),
{
    let k = field_index(fields, name);
    assert(is_first(fields, name, k));
    if k < i {
        assert(fields[k].0 != name);
    }
    if i < k {
        assert(fields[i].0 != name);
    }
}

/// Where no pair has the name, no field is found.
pub proof fn lemma_absent<V>(fields: Seq<(Seq<char>, V)>, name: Seq<char>)
    requires
        forall|j: int| 0 <= j < fields.len() ==> (#[trigger] fields[j]).0 != name,
    ensures
        !has_field(fields, name),
        first_field(fields, name) is None,
{
    if has_field(fields, name) {
        let k = field_index(fields, name);
        assert(is_first(fields, name, k));
        assert(fields[k].0 != name);
    }
}

/// After a value was written under a name, that value is found under it,
/// and under every other name what was found before.
pub proof fn lemma_upsert_then_find<V>(
    fields: Seq<(Seq<char>, V)>,
    name: Seq<char>,
    value: V,
    other: Seq<char>,
)
    ensures
        first_field(upsert(fields, name, value), name) == Some(value),
        other != name ==> first_field(upsert(fields, name, value), other) == first_field(
            fields,
            other,
        ),
{
    let after = upsert(fields, name, value);
    if has_field(fields, name) {
        let k = field_index(fields, name);
        assert(is_first(fields, name, k));
        assert forall|j: int| 0 <= j < k implies (#[trigger] after[j]).0 != name by {
            assert(after[j] == fields[j]);
        }
        assert(is_first(after, name, k));
        lemma_first_is_index(after, name, k);
    } else {
        assert forall|j: int| 0 <= j < fields.len() implies (#[trigger] after[j]).0 != name by {
            assert(after[j] == fields[j]);
            if fields[j].0 == name {
                lemma_some_is_first(fields, name, j);
            }
        }
        assert(is_first(after, name, fields.len() as int));
        lemma_first_is_index(after, name, fields.len() as int);
    }
    if other != name {
        if has_field(fields, other) {
            let k = field_index(fields, other);
            assert(is_first(fields, other, k));
            assert(after[k] == fields[k]);
            assert forall|j: int| 0 <= j < k implies (#[trigger] after[j]).0 != other by {
                if after[j] != fields[j] {
                    assert(after[j].0 == name);
                }
            }
            assert(is_first(after, other, k));
            lemma_first_is_index(after, other, k);
        } else {
            assert forall|j: int| 0 <= j < after.len() implies (#[trigger] after[j]).0
                != other by {
                if j < fields.len() && after[j] == fields[j] {
                    if fields[j].0 == other {
                        lemma_some_is_first(fields, other, j);
                    }
                } else {
                    assert(after[j].0 == name);
                }
            }
            lemma_absent(after, other);
        }
    }
}

/// Where a pair has the name, a first pair has it.
pub proof fn lemma_some_is_first<V>(fields: Seq<(Seq<char>, V)>, name: Seq<char>, i: int)
    requires
        0 <= i < fields.len(),
        fields[i].0 == name,
    ensures
        has_field(fields, name),
        field_index(fields, name) <= i,
    decreases i,
{
    if forall|j: int| 0 <= j < i ==> (#[trigger] fields[j]).0 != name {
        assert(is_first(fields, name, i));
        lemma_first_is_index(fields, name, i);
    } else {
        let j = choose|j: int| 0 <= j < i && (#[trigger] fields[j]).0 == name;
        lemma_some_is_first(fields, name, j);
    }
}

/// Writing a value under a name keeps the names distinct.
pub proof fn lemma_upsert_keeps_names_distinct<V>(
    fields: Seq<(Seq<char>, V)>,
    name: Seq<char>,
    value: V,
)
    requires
        distinct_names(fields),
    ensures
        distinct_names(upsert(fields, name, value)),
{
    let after = upsert(fields, name, value);
    if has_field(fields, name) {
        let k = field_index(fields, name);
        assert(is_first(fields, name, k));
        assert forall|i: int, j: int| 0 <= i < j < after.len() implies (#[trigger] after[i]).0 != (
        #[trigger] after[j]).0 by {
            assert(after[i].0 == fields[i].0);
            assert(after[j].0 == fields[j].0);
        }
    } else {
        assert forall|i: int, j: int| 0 <= i < j < after.len() implies (#[trigger] after[i]).0 != (
        #[trigger] after[j]).0 by {
            assert(after[i] == fields[i]);
            if j < fields.len() {
                assert(after[j] == fields[j]);
            } else {
                if fields[i].0 == name {
                    lemma_some_is_first(fields, name, i);
                }
            }
        }
    }
}

/// Writing the same value under the same name twice is writing it once.
pub proof fn lemma_upsert_twice_is_once<V>(
    fields: Seq<(Seq<char>, V)>,
    name: Seq<char>,
    value: V,
)
    ensures
        upsert(upsert(fields, name, value), name, value) == upsert(fields, name, value),
{
    let once = upsert(fields, name, value);
    lemma_upsert_then_find(fields, name, value, name);
    let k = field_index(once, name);
    assert(is_first(once, name, k));
    if has_field(fields, name) {
        let k0 = field_index(fields, name);
        assert(is_first(fields, name, k0));
        assert forall|j: int| 0 <= j < k0 implies (#[trigger] once[j]).0 != name by {
            assert(once[j] == fields[j]);
        }
        assert(is_first(once, name, k0));
        lemma_first_is_index(once, name, k0);
    } else {
        assert forall|j: int| 0 <= j < fields.len() implies (#[trigger] once[j]).0 != name by {
            assert(once[j] == fields[j]);
            if fields[j].0 == name {
                lemma_some_is_first(fields, name, j);
            }
        }
        assert(is_first(once, name, fields.len() as int));
        lemma_first_is_index(once, name, fields.len() as int);
    }
    assert(once.update(k, (name, value)) =~= once);
}

} // verus!
