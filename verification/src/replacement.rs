//! Which courses may stand in for a required course.

use vstd::prelude::*;
use crate::catalog::{replacements_view, OptionalReplacements, OptionalReplacementsView};
use crate::course::{texts_view, CourseId};

verus! {

/// Whether some entry of `table` is for the course `id`.
pub open spec fn has_entry(table: Seq<OptionalReplacementsView>, id: Seq<char>) -> bool {
    exists|i: int| 0 <= i < table.len() && (#[trigger] table[i]).course == id
}

/// Whether `i` is the place of the first entry for the course `id`.
pub open spec fn is_first_entry(table: Seq<OptionalReplacementsView>, id: Seq<char>, i: int)
    -> bool {
    &&& 0 <= i < table.len()
    &&& table[i].course == id
    &&& forall|j: int| 0 <= j < i ==> (#[trigger] table[j]).course != id
}

/// The first entry of `table` for the course `id`, if there is one.
pub open spec fn find_entry(table: Seq<OptionalReplacementsView>, id: Seq<char>) -> Option<
    OptionalReplacementsView,
> {
    if has_entry(table, id) {
        Some(table[choose|i: int| is_first_entry(table, id, i)])
    } else {
        None
    }
}

/// The courses that may stand in for the course `id`, in the order in which
/// they are tried. The catalog's own entry comes first; the institution-wide
/// entry follows it unless the catalog's entry is exclusive.
pub open spec fn effective_replacements(
    id: Seq<char>,
    catalog_table: Seq<OptionalReplacementsView>,
    common_table: Seq<OptionalReplacementsView>,
) -> Seq<Seq<char>> {
    match (find_entry(catalog_table, id), find_entry(common_table, id)) {
        (Some(own), Some(common)) => if own.exclusive {
            own.replacements
        } else {
            own.replacements + common.replacements
        },
        (Some(own), None) => own.replacements,
        (None, Some(common)) => common.replacements,
        (None, None) => Seq::empty(),
    }
}

/// Where both tables hold an entry for a course and the catalog's is not
/// exclusive, the courses that may stand in for it are those of either
/// entry; where the catalog's entry is exclusive, or there is no
/// institution-wide entry, they are those of the catalog's entry alone.
pub proof fn lemma_replacements_union(
    id: Seq<char>,
    catalog_table: Seq<OptionalReplacementsView>,
    common_table: Seq<OptionalReplacementsView>,
    course: Seq<char>,
)
    ensures
        effective_replacements(id, catalog_table, common_table).contains(course) <==> ({
            let own = find_entry(catalog_table, id);
            let common = find_entry(common_table, id);
            ||| own is Some && own->0.replacements.contains(course)
            ||| common is Some && common->0.replacements.contains(course) && !(own is Some
                && own->0.exclusive)
        }),
{
    let own = find_entry(catalog_table, id);
    let common = find_entry(common_table, id);
    let all = effective_replacements(id, catalog_table, common_table);
    if own is Some && common is Some && !own->0.exclusive {
        let a = own->0.replacements;
        let b = common->0.replacements;
        if all.contains(course) {
            let i = choose|i: int| 0 <= i < all.len() && all[i] == course;
            if i < a.len() {
                assert(a[i] == course);
            } else {
                assert(b[i - a.len()] == course);
            }
        }
        if a.contains(course) {
            let i = choose|i: int| 0 <= i < a.len() && a[i] == course;
            assert(all[i] == course);
        }
        if b.contains(course) {
            let i = choose|i: int| 0 <= i < b.len() && b[i] == course;
            assert(all[a.len() + i] == course);
        }
    }
}

/// The first entry for a course is found at the one place that holds the
/// course and has no entry for it before.
pub proof fn lemma_find_entry(table: Seq<OptionalReplacementsView>, id: Seq<char>, i: int)
    requires
        is_first_entry(table, id, i),
    ensures
        find_entry(table, id) == Some(table[i]),
{
    let c = choose|c: int| is_first_entry(table, id, c);
    assert(is_first_entry(table, id, c));
    if c < i {
        assert(table[c].course != id);
    }
    if i < c {
        assert(table[i].course != id);
    }
}

/// The place of the first entry of `table` for the course `id`.
pub fn position_of_entry(table: &Vec<OptionalReplacements>, id: &CourseId) -> (r: Option<usize>)
    ensures
        match r {
            Some(i) => is_first_entry(replacements_view(table@), id@, i as int),
            None => !has_entry(replacements_view(table@), id@),
        },
{
    let mut i: usize = 0;
    while i < table.len()
        invariant
            i <= table@.len(),
            forall|j: int| 0 <= j < i ==> (#[trigger] replacements_view(table@)[j]).course != id@,
        decreases table@.len() - i,
    {
        if table[i].course == *id {
            return Some(i);
        }
        i += 1;
    }
    None
}

/// Appends copies of the texts of `source` to `target`.
pub fn append_texts(target: &mut Vec<String>, source: &Vec<String>)
    ensures
        texts_view(final(target)@) == texts_view(old(target)@) + texts_view(source@),
{
    let mut i: usize = 0;
    assert(texts_view(source@).take(0) =~= Seq::empty());
    assert(texts_view(target@) =~= texts_view(old(target)@) + Seq::empty());
    while i < source.len()
        invariant
            i <= source@.len(),
            texts_view(target@) == texts_view(old(target)@) + texts_view(source@).take(i as int),
        decreases source@.len() - i,
    {
        let ghost before = texts_view(target@);
        target.push(source[i].clone());
        assert(texts_view(target@) =~= before.push(source@[i as int]@));
        assert(texts_view(source@).take(i + 1) =~= texts_view(source@).take(i as int).push(
            source@[i as int]@,
        ));
        assert(before.push(source@[i as int]@) =~= texts_view(old(target)@) + texts_view(
            source@,
        ).take(i + 1));
        i += 1;
    }
    assert(texts_view(source@).take(i as int) =~= texts_view(source@));
}

/// The courses that may stand in for the course `id`, given the catalog's own
/// replacement table and the institution-wide one.
pub fn replacements_for(
    id: &CourseId,
    catalog_table: &Vec<OptionalReplacements>,
    common_table: &Vec<OptionalReplacements>,
) -> (r: Vec<CourseId>)
    ensures
        texts_view(r@) == effective_replacements(
            id@,
            replacements_view(catalog_table@),
            replacements_view(common_table@),
        ),
{
    let mut list: Vec<CourseId> = Vec::new();
    assert(texts_view(list@) =~= Seq::empty());
    let own = position_of_entry(catalog_table, id);
    let common = position_of_entry(common_table, id);
    let mut take_common = true;
    if let Some(i) = own {
        proof {
            lemma_find_entry(replacements_view(catalog_table@), id@, i as int);
        }
        append_texts(&mut list, &catalog_table[i].replacements);
        take_common = !catalog_table[i].exclusive;
    }
    if let Some(k) = common {
        proof {
            lemma_find_entry(replacements_view(common_table@), id@, k as int);
        }
        if take_common {
            append_texts(&mut list, &common_table[k].replacements);
        }
    }
    assert(texts_view(list@) =~= effective_replacements(
        id@,
        replacements_view(catalog_table@),
        replacements_view(common_table@),
    ));
    list
}

} // verus!
