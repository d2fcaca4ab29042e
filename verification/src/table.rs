//! A list of distinct names beside a list of items, read as a map from name to item.

use vstd::prelude::*;
use crate::search::{lemma_first_index, lemma_index_of_first, lemma_no_index};
use crate::text::texts;

verus! {

/// The map that takes each name of `names` to the item that stands in `items` where the
/// name stands in `names`.
pub open spec fn table<T>(names: Seq<Seq<char>>, items: Seq<T>) -> Map<Seq<char>, T> {
    Map::new(
        |name: Seq<char>| names.contains(name),
        |name: Seq<char>| items[names.index_of_first(name).unwrap()],
    )
}

/// A name is a key of the table exactly where a first index of it exists.
pub proof fn lemma_table_key<T>(names: Seq<Seq<char>>, items: Seq<T>, name: Seq<char>)
    ensures
        table(names, items).dom().contains(name) <==> names.index_of_first(name) is Some,
        names.index_of_first(name) matches Some(i) ==> 0 <= i < names.len() && names[i] == name
            && table(names, items)[name] == items[i],
{
    lemma_index_of_first(names, name);
}

/// A new name with its item at the end of both lists is one more entry of the map.
pub proof fn lemma_table_push<T>(names: Seq<Seq<char>>, items: Seq<T>, name: Seq<char>, item: T)
    requires
        names.len() == items.len(),
        !names.contains(name),
    ensures
        table(names.push(name), items.push(item)) == table(names, items).insert(name, item),
        names.no_duplicates() ==> names.push(name).no_duplicates(),
{
    let longer = names.push(name);
    assert(longer[names.len() as int] == name);
    assert forall|key: Seq<char>| longer.contains(key) <==> (names.contains(key) || key
        == name) by {
        if names.contains(key) {
            let i = choose|i: int| 0 <= i < names.len() && names[i] == key;
            assert(longer[i] == key);
        }
        if longer.contains(key) {
            let i = choose|i: int| 0 <= i < longer.len() && longer[i] == key;
            if i < names.len() {
                assert(names[i] == key);
            }
        }
    }
    assert forall|key: Seq<char>| names.contains(key) implies longer.index_of_first(key)
        == names.index_of_first(key) by {
        lemma_index_of_first(names, key);
        let i = names.index_of_first(key).unwrap();
        lemma_first_index(longer, key, i);
    }
    lemma_first_index(longer, name, names.len() as int);
    assert forall|key: Seq<char>| longer.contains(key) implies table(longer, items.push(item))[key]
        == table(names, items).insert(name, item)[key] by {
        if key != name {
            lemma_index_of_first(names, key);
        }
    }
    assert(table(longer, items.push(item)) =~= table(names, items).insert(name, item));
    if names.no_duplicates() {
        assert forall|i: int, j: int|
            0 <= i < longer.len() && 0 <= j < longer.len() && i != j implies longer[i]
            != longer[j] by {
            if i < names.len() && j < names.len() {
                assert(names[i] != names[j]);
            }
        }
    }
}

/// Another item in the place of a name is another item under that key.
pub proof fn lemma_table_update<T>(names: Seq<Seq<char>>, items: Seq<T>, i: int, item: T)
    requires
        names.no_duplicates(),
        names.len() == items.len(),
        0 <= i < names.len(),
    ensures
        table(names, items.update(i, item)) == table(names, items).insert(names[i], item),
{
    assert(names.contains(names[i]));
    assert forall|key: Seq<char>| names.contains(key) implies table(
        names,
        items.update(i, item),
    )[key] == table(names, items).insert(names[i], item)[key] by {
        lemma_index_of_first(names, key);
    }
    assert(table(names, items.update(i, item)) =~= table(names, items).insert(names[i], item));
}

/// The table of distinct names has as many entries as there are names.
pub proof fn lemma_table_len<T>(names: Seq<Seq<char>>, items: Seq<T>)
    requires
        names.no_duplicates(),
    ensures
        table(names, items).dom().finite(),
        table(names, items).dom().len() == names.len(),
{
    names.unique_seq_to_set();
    lemma_table_keys(names, items);
}

/// The index at which `name` stands in `names`.
pub fn find_name(names: &Vec<String>, name: &String) -> (r: Option<usize>)
    ensures
        match r {
            Some(i) => texts(names@).index_of_first(name@) == Some(i as int) && i < names@.len()
                && names@[i as int]@ == name@,
            None => texts(names@).index_of_first(name@) is None && !texts(names@).contains(name@),
        },
{
    let mut i: usize = 0;
    while i < names.len()
        invariant
            i <= names@.len(),
            forall|j: int| 0 <= j < i ==> texts(names@)[j] != name@,
        decreases names@.len() - i,
    {
        if names[i] == *name {
            proof {
                lemma_first_index(texts(names@), name@, i as int);
            }
            return Some(i);
        }
        i += 1;
    }
    proof {
        lemma_no_index(texts(names@), name@);
    }
    None
}

/// A copy of `names`.
pub fn copy_names(names: &Vec<String>) -> (copy: Vec<String>)
    ensures
        texts(copy@) == texts(names@),
{
    let mut copy: Vec<String> = Vec::new();
    let mut i: usize = 0;
    while i < names.len()
        invariant
            i <= names@.len(),
            texts(copy@) == texts(names@).take(i as int),
        decreases names@.len() - i,
    {
        let ghost before = texts(copy@);
        let name = names[i].clone();
        copy.push(name);
        proof {
            assert(texts(copy@) == before.push(name@));
            assert(texts(names@).take(i + 1) == texts(names@).take(i as int).push(name@));
        }
        i += 1;
    }
    assert(texts(names@).take(i as int) == texts(names@));
    copy
}

/// The names of a table are its keys.
pub proof fn lemma_table_keys<T>(names: Seq<Seq<char>>, items: Seq<T>)
    ensures
        table(names, items).dom() == names.to_set(),
{
    assert(table(names, items).dom() =~= names.to_set());
}

} // verus!
