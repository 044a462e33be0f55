//! What unpacking and packing keep: the members of every application, and
//! the shape of the unpacked tree.

use vstd::prelude::*;
use crate::ab_extracting::{
    all_prefixed, application, application_names, archive_names, category, category_members,
    category_names, directory, distinct, entry_names, is_application, is_archive,
    is_category, is_inside, is_plain, is_plain_file, is_under, is_unpacked_tree, names_in,
    plain_files, prefixed, relative, roots, shows_directory, top_files, tree, tree_members, under,
    ApplicationArchiveView, CategoryView,
};
use crate::archive::{ArchiveEntryView, DIRECTORY};

verus! {

/// Filtering a concatenation of blocks filters each block.
pub proof fn lemma_filter_flatten<A>(blocks: Seq<Seq<A>>, keep: spec_fn(A) -> bool)
    ensures
        blocks.flatten().filter(keep) == blocks.map_values(|b: Seq<A>| b.filter(keep)).flatten(),
    decreases blocks.len(),
{
    let each = |b: Seq<A>| b.filter(keep);
    if blocks.len() == 0 {
        reveal(Seq::filter);
        assert(blocks.map_values(each) =~= Seq::<Seq<A>>::empty());
    } else {
        let rest = blocks.drop_first();
        lemma_filter_flatten(rest, keep);
        Seq::filter_distributes_over_add(blocks.first(), rest.flatten(), keep);
        assert(blocks.map_values(each).drop_first() =~= rest.map_values(each));
    }
}

/// Blocks that are all empty concatenate to nothing.
pub proof fn lemma_flatten_none<A>(blocks: Seq<Seq<A>>)
    requires
        forall|i: int| 0 <= i < blocks.len() ==> (#[trigger] blocks[i]).len() == 0,
    ensures
        blocks.flatten() == Seq::<A>::empty(),
    decreases blocks.len(),
{
    if blocks.len() > 0 {
        let rest = blocks.drop_first();
        assert forall|i: int| 0 <= i < rest.len() implies (#[trigger] rest[i]).len() == 0 by {
            assert(rest[i] == blocks[i + 1]);
        }
        lemma_flatten_none(rest);
        assert(blocks.first() =~= Seq::<A>::empty());
        assert(blocks.flatten() =~= Seq::<A>::empty());
    }
}

/// Blocks of which all but one are empty concatenate to that one.
pub proof fn lemma_flatten_only<A>(blocks: Seq<Seq<A>>, k: int)
    requires
        0 <= k < blocks.len(),
        forall|i: int| 0 <= i < blocks.len() && i != k ==> (#[trigger] blocks[i]).len() == 0,
    ensures
        blocks.flatten() == blocks[k],
    decreases blocks.len(),
{
    let rest = blocks.drop_first();
    if k == 0 {
        assert forall|i: int| 0 <= i < rest.len() implies (#[trigger] rest[i]).len() == 0 by {
            assert(rest[i] == blocks[i + 1]);
        }
        lemma_flatten_none(rest);
        assert(blocks.flatten() =~= blocks[0]);
    } else {
        assert forall|i: int| 0 <= i < rest.len() && i != k - 1 implies (#[trigger] rest[i]).len()
            == 0 by {
            assert(rest[i] == blocks[i + 1]);
        }
        lemma_flatten_only(rest, k - 1);
        assert(blocks.first() =~= Seq::<A>::empty());
        assert(blocks.flatten() =~= blocks[k]);
    }
}

/// A filter keeps a sequence whole where every element passes.
pub proof fn lemma_filter_all<A>(s: Seq<A>, keep: spec_fn(A) -> bool)
    requires
        forall|i: int| 0 <= i < s.len() ==> keep(#[trigger] s[i]),
    ensures
        s.filter(keep) == s,
    decreases s.len(),
{
    reveal(Seq::filter);
    if s.len() > 0 {
        lemma_filter_all(s.drop_last(), keep);
        assert(s.drop_last().push(s.last()) =~= s);
    }
}

/// A filter keeps nothing where no element passes.
pub proof fn lemma_filter_nothing<A>(s: Seq<A>, keep: spec_fn(A) -> bool)
    requires
        forall|i: int| 0 <= i < s.len() ==> !keep(#[trigger] s[i]),
    ensures
        s.filter(keep) == Seq::<A>::empty(),
    decreases s.len(),
{
    reveal(Seq::filter);
    if s.len() > 0 {
        lemma_filter_nothing(s.drop_last(), keep);
    }
}

/// A narrower filter after a wider one is the narrower one.
pub proof fn lemma_filter_twice<A>(s: Seq<A>, wide: spec_fn(A) -> bool, narrow: spec_fn(A) -> bool)
    requires
        forall|i: int| 0 <= i < s.len() ==> (narrow(#[trigger] s[i]) ==> wide(s[i])),
    ensures
        s.filter(wide).filter(narrow) == s.filter(narrow),
    decreases s.len(),
{
    reveal(Seq::filter);
    if s.len() > 0 {
        let init = s.drop_last();
        assert forall|i: int| 0 <= i < init.len() && narrow(#[trigger] init[i]) implies wide(
            init[i],
        ) by {
            assert(init[i] == s[i]);
        }
        lemma_filter_twice(init, wide, narrow);
        if wide(s.last()) {
            init.filter(wide).lemma_filter_push(s.last(), narrow);
        }
    }
}

/// A filter keeps a sequence free of repetitions.
pub proof fn lemma_filter_no_duplicates<A>(s: Seq<A>, keep: spec_fn(A) -> bool)
    requires
        s.no_duplicates(),
    ensures
        s.filter(keep).no_duplicates(),
    decreases s.len(),
{
    reveal(Seq::filter);
    if s.len() > 0 {
        let init = s.drop_last();
        lemma_filter_no_duplicates(init, keep);
        if keep(s.last()) {
            if init.filter(keep).contains(s.last()) {
                init.lemma_filter_contains_rev(keep, s.last());
                let j = choose|j: int| 0 <= j < init.len() && init[j] == s.last();
                assert(s[j] == s[s.len() - 1]);
            }
        }
    }
}

/// `distinct` keeps every name once.
pub proof fn lemma_distinct(names: Seq<Seq<char>>)
    ensures
        distinct(names).no_duplicates(),
        forall|x: Seq<char>| distinct(names).contains(x) <==> names.contains(x),
    decreases names.len(),
{
    if names.len() > 0 {
        let init = names.drop_last();
        lemma_distinct(init);
        let before = distinct(init);
        assert forall|x: Seq<char>| distinct(names).contains(x) <==> names.contains(x) by {
            if names.contains(x) {
                let j = choose|j: int| 0 <= j < names.len() && names[j] == x;
                if j < names.len() - 1 {
                    assert(init[j] == x);
                    assert(init.contains(x));
                    assert(before.contains(x));
                    let k = choose|k: int| 0 <= k < before.len() && before[k] == x;
                    assert(distinct(names)[k] == x);
                } else {
                    if before.contains(x) {
                    } else {
                        assert(distinct(names)[before.len() as int] == x);
                    }
                }
            }
            if distinct(names).contains(x) {
                let k = choose|k: int| 0 <= k < distinct(names).len() && distinct(names)[k] == x;
                if k < before.len() {
                    assert(before[k] == x);
                    assert(before.contains(x));
                    assert(init.contains(x));
                    let j = choose|j: int| 0 <= j < init.len() && init[j] == x;
                    assert(names[j] == x);
                } else {
                    assert(names[names.len() - 1] == x);
                }
            }
        }
    }
}

/// Taking the members of a category from the category downwards and putting
/// them back below it changes nothing.
pub proof fn lemma_prefix_relative(
    members: Seq<ArchiveEntryView>,
    name: Seq<char>,
    keep: spec_fn(ArchiveEntryView) -> bool,
)
    requires
        forall|i: int|
            0 <= i < members.len() ==> (keep(#[trigger] members[i]) ==> is_inside(
                members[i],
                name,
            )),
    ensures
        all_prefixed(name, members.filter(keep).map_values(|m: ArchiveEntryView| relative(m)))
            == members.filter(keep),
{
    let kept = members.filter(keep);
    let back = all_prefixed(name, kept.map_values(|m: ArchiveEntryView| relative(m)));
    assert forall|i: int| 0 <= i < kept.len() implies back[i] == kept[i] by {
        members.lemma_filter_pred(keep, i);
        assert(kept.contains(kept[i]));
        members.lemma_filter_contains_rev(keep, kept[i]);
        let j = choose|j: int| 0 <= j < members.len() && members[j] == kept[i];
        assert(keep(members[j]));
        assert(is_inside(kept[i], name));
        assert(back[i].path =~= kept[i].path);
    }
    assert(back =~= kept);
}

/// Members below one category are none of another.
pub proof fn lemma_prefixed_elsewhere(
    members: Seq<ArchiveEntryView>,
    here: Seq<char>,
    category: Seq<char>,
    name: Seq<char>,
)
    requires
        here != category,
    ensures
        under(all_prefixed(here, members), category, name) == Seq::<ArchiveEntryView>::empty(),
{
    let all = all_prefixed(here, members);
    let keep = |m: ArchiveEntryView| is_under(m, category, name);
    assert forall|i: int| 0 <= i < all.len() implies !keep(#[trigger] all[i]) by {
        assert(all[i].path[0] == here);
    }
    lemma_filter_nothing(all, keep);
}

/// Of the members below the entry `entry` of a category, those below its
/// entry `name` are all or none.
pub proof fn lemma_under_under(
    members: Seq<ArchiveEntryView>,
    category: Seq<char>,
    entry: Seq<char>,
    name: Seq<char>,
)
    ensures
        under(under(members, category, entry), category, name) == if entry == name {
            under(members, category, name)
        } else {
            Seq::<ArchiveEntryView>::empty()
        },
{
    let first = |m: ArchiveEntryView| is_under(m, category, entry);
    let second = |m: ArchiveEntryView| is_under(m, category, name);
    let kept = members.filter(first);
    assert forall|i: int| 0 <= i < kept.len() implies (second(#[trigger] kept[i]) <==> entry
        == name) by {
        members.lemma_filter_pred(first, i);
    }
    if entry == name {
        lemma_filter_all(kept, second);
    } else {
        lemma_filter_nothing(kept, second);
    }
}

/// The applications of a category are the entries that a member shows to be
/// a directory.
pub proof fn lemma_application_names(
    members: Seq<ArchiveEntryView>,
    category: Seq<char>,
    name: Seq<char>,
)
    ensures
        application_names(members, category).contains(name) <==> is_application(
            members,
            category,
            name,
        ),
        application_names(members, category).no_duplicates(),
{
    let within = |m: ArchiveEntryView| is_inside(m, category);
    let second = |m: ArchiveEntryView| m.path[1];
    let packed = |a: Seq<char>| is_application(members, category, a);
    let inner = members.filter(within);
    let seconds = inner.map_values(second);
    let entries = entry_names(members, category);
    let names = application_names(members, category);
    lemma_distinct(seconds);
    lemma_filter_no_duplicates(entries, packed);
    if names.contains(name) {
        let k = choose|k: int| 0 <= k < names.len() && names[k] == name;
        entries.lemma_filter_pred(packed, k);
    }
    if is_application(members, category, name) {
        let i = choose|i: int|
            0 <= i < members.len() && shows_directory(#[trigger] members[i], category, name);
        members.lemma_filter_contains(within, i);
        let j = choose|j: int| 0 <= j < inner.len() && inner[j] == members[i];
        assert(seconds[j] == name);
        assert(seconds.contains(name));
        assert(entries.contains(name));
        let k = choose|k: int| 0 <= k < entries.len() && entries[k] == name;
        entries.lemma_filter_contains(packed, k);
    }
}

/// Of what the archives of a category unpack to, the members below the
/// entry `name` are those of the application `name`, if there is one.
pub proof fn lemma_archives_part(
    members: Seq<ArchiveEntryView>,
    category: Seq<char>,
    name: Seq<char>,
)
    ensures
        under(
            crate::ab_extracting::category(members, category).archives.map_values(
                |a: ApplicationArchiveView| all_prefixed(category, a.members),
            ).flatten(),
            category,
            name,
        ) == if is_application(members, category, name) {
            under(members, category, name)
        } else {
            Seq::<ArchiveEntryView>::empty()
        },
{
    let keep = |m: ArchiveEntryView| is_under(m, category, name);
    let names = application_names(members, category);
    let blocks = crate::ab_extracting::category(members, category).archives.map_values(
        |a: ApplicationArchiveView| all_prefixed(category, a.members),
    );
    let kept = blocks.map_values(|b: Seq<ArchiveEntryView>| b.filter(keep));
    lemma_filter_flatten(blocks, keep);
    lemma_application_names(members, category, name);
    assert(blocks.len() == names.len());
    assert forall|j: int| 0 <= j < kept.len() implies #[trigger] kept[j] == if names[j] == name {
        under(members, category, name)
    } else {
        Seq::<ArchiveEntryView>::empty()
    } by {
        let below = |m: ArchiveEntryView| is_under(m, category, names[j]);
        assert(blocks[j] == all_prefixed(
            category,
            application(members, category, names[j]).members,
        ));
        lemma_prefix_relative(members, category, below);
        assert(blocks[j] == under(members, category, names[j]));
        lemma_under_under(members, category, names[j], name);
    }
    if names.contains(name) {
        let k = choose|k: int| 0 <= k < names.len() && names[k] == name;
        assert forall|j: int| 0 <= j < kept.len() && j != k implies (#[trigger] kept[j]).len()
            == 0 by {
            assert(names[j] != names[k]);
        }
        lemma_flatten_only(kept, k);
    } else {
        assert forall|j: int| 0 <= j < kept.len() implies (#[trigger] kept[j]).len() == 0 by {
            assert(names.contains(names[j]));
        }
        lemma_flatten_none(kept);
    }
}

/// Of the plain files of a category, those below the entry `name` are the
/// members below it, unless `name` is an application.
pub proof fn lemma_files_part(members: Seq<ArchiveEntryView>, category: Seq<char>, name: Seq<char>)
    ensures
        under(all_prefixed(category, plain_files(members, category)), category, name) == if is_application(
            members,
            category,
            name,
        ) {
            Seq::<ArchiveEntryView>::empty()
        } else {
            under(members, category, name)
        },
{
    let free = |m: ArchiveEntryView| is_plain_file(members, m, category);
    let keep = |m: ArchiveEntryView| is_under(m, category, name);
    lemma_prefix_relative(members, category, free);
    let kept = members.filter(free);
    assert(all_prefixed(category, plain_files(members, category)) == kept);
    if is_application(members, category, name) {
        assert forall|i: int| 0 <= i < kept.len() implies !keep(#[trigger] kept[i]) by {
            members.lemma_filter_pred(free, i);
        }
        lemma_filter_nothing(kept, keep);
    } else {
        lemma_filter_twice(members, free, keep);
    }
}

/// Of what a category of the unpacked tree unpacks to, the members below
/// its entry `name` are those that lay below it before.
pub proof fn lemma_own_category(
    members: Seq<ArchiveEntryView>,
    category: Seq<char>,
    name: Seq<char>,
)
    ensures
        under(
            category_members(crate::ab_extracting::category(members, category)),
            category,
            name,
        ) == under(members, category, name),
{
    let keep = |m: ArchiveEntryView| is_under(m, category, name);
    let one = crate::ab_extracting::category(members, category);
    let top = seq![directory(category)];
    let archived = one.archives.map_values(
        |a: ApplicationArchiveView| all_prefixed(category, a.members),
    ).flatten();
    let plain = all_prefixed(category, one.files);
    assert(category_members(one) == top + archived + plain) by {
        reveal(category_members);
    }
    Seq::filter_distributes_over_add(top + archived, plain, keep);
    Seq::filter_distributes_over_add(top, archived, keep);
    assert forall|i: int| 0 <= i < top.len() implies !keep(#[trigger] top[i]) by {}
    lemma_filter_nothing(top, keep);
    lemma_archives_part(members, category, name);
    lemma_files_part(members, category, name);
    assert(top.filter(keep) + archived.filter(keep) + plain.filter(keep) =~= under(
        members,
        category,
        name,
    ));
}

/// What another category unpacks to holds no member of `category`.
pub proof fn lemma_other_category(
    one: CategoryView,
    category: Seq<char>,
    name: Seq<char>,
)
    requires
        one.name != category,
    ensures
        under(category_members(one), category, name) == Seq::<ArchiveEntryView>::empty(),
{
    let keep = |m: ArchiveEntryView| is_under(m, category, name);
    let top = seq![directory(one.name)];
    let blocks = one.archives.map_values(
        |a: ApplicationArchiveView| all_prefixed(one.name, a.members),
    );
    let archived = blocks.flatten();
    let plain = all_prefixed(one.name, one.files);
    assert(category_members(one) == top + archived + plain) by {
        reveal(category_members);
    }
    Seq::filter_distributes_over_add(top + archived, plain, keep);
    Seq::filter_distributes_over_add(top, archived, keep);
    assert forall|i: int| 0 <= i < top.len() implies !keep(#[trigger] top[i]) by {}
    lemma_filter_nothing(top, keep);
    lemma_filter_flatten(blocks, keep);
    let kept = blocks.map_values(|b: Seq<ArchiveEntryView>| b.filter(keep));
    assert forall|j: int| 0 <= j < kept.len() implies (#[trigger] kept[j]).len() == 0 by {
        lemma_prefixed_elsewhere(one.archives[j].members, one.name, category, name);
    }
    lemma_flatten_none(kept);
    lemma_prefixed_elsewhere(one.files, one.name, category, name);
    assert(top.filter(keep) + archived.filter(keep) + plain.filter(keep) =~= Seq::<
        ArchiveEntryView,
    >::empty());
}

/// Unpacking and packing again keeps every application whole: what the
/// unpacked tree of `members` unpacks to holds, below each entry of each
/// category, the very members that lay there, in their order. (The members
/// that cannot be placed are no part of `members`: reading leaves them out.)
pub proof fn lemma_round_trip(
    members: Seq<ArchiveEntryView>,
    category: Seq<char>,
    name: Seq<char>,
)
    ensures
        under(tree_members(tree(members)), category, name) == under(members, category, name),
{
    let keep = |m: ArchiveEntryView| is_under(m, category, name);
    let names = category_names(members);
    let blocks = tree(members).map_values(|c: CategoryView| category_members(c));
    let kept = blocks.map_values(|b: Seq<ArchiveEntryView>| b.filter(keep));
    lemma_filter_flatten(blocks, keep);
    lemma_distinct(roots(members));
    assert forall|j: int| 0 <= j < kept.len() implies #[trigger] kept[j] == if names[j]
        == category {
        under(members, category, name)
    } else {
        Seq::<ArchiveEntryView>::empty()
    } by {
        assert(blocks[j] == category_members(crate::ab_extracting::category(members, names[j])));
        if names[j] == category {
            lemma_own_category(members, category, name);
        } else {
            lemma_other_category(
                crate::ab_extracting::category(members, names[j]),
                category,
                name,
            );
        }
    }
    if names.contains(category) {
        let k = choose|k: int| 0 <= k < names.len() && names[k] == category;
        assert forall|j: int| 0 <= j < kept.len() && j != k implies (#[trigger] kept[j]).len()
            == 0 by {
            assert(names[j] != names[k]);
        }
        lemma_flatten_only(kept, k);
    } else {
        assert forall|j: int| 0 <= j < kept.len() implies (#[trigger] kept[j]).len() == 0 by {
            assert(names.contains(names[j]));
        }
        lemma_flatten_none(kept);
        let rooted = |m: ArchiveEntryView| crate::ab_extracting::is_rooted(m);
        let found = under(members, category, name);
        if found.len() > 0 {
            members.lemma_filter_pred(keep, 0);
            assert(found.contains(found[0]));
            members.lemma_filter_contains_rev(keep, found[0]);
            let i = choose|i: int| 0 <= i < members.len() && members[i] == found[0];
            members.lemma_filter_contains(rooted, i);
            let top = members.filter(rooted);
            let j = choose|j: int| 0 <= j < top.len() && top[j] == members[i];
            assert(roots(members)[j] == category);
            assert(roots(members).contains(category));
            assert(false);
        }
        assert(found =~= Seq::<ArchiveEntryView>::empty());
    }
}

/// Every category of the tree that `members` unpack to is as unpacking
/// makes it.
pub proof fn lemma_category_shape(members: Seq<ArchiveEntryView>, name: Seq<char>)
    ensures
        is_category(crate::ab_extracting::category(members, name)),
{
    reveal(is_category);
    reveal(is_archive);
    let one = crate::ab_extracting::category(members, name);
    let names = application_names(members, name);
    assert(archive_names(one) =~= names);
    lemma_application_names(members, name, name);
    assert forall|j: int| 0 <= j < one.archives.len() implies is_archive(
        #[trigger] one.archives[j],
    ) by {
        let archive = one.archives[j];
        let below = |m: ArchiveEntryView| is_under(m, name, names[j]);
        let found = under(members, name, names[j]);
        assert(archive == application(members, name, names[j]));
        assert forall|i: int| 0 <= i < archive.members.len() implies (
        #[trigger] archive.members[i]).path.len() >= 1 && archive.members[i].path[0]
            == archive.name by {
            members.lemma_filter_pred(below, i);
            assert(archive.members[i] == relative(found[i]));
        }
        assert(names.contains(names[j]));
        lemma_application_names(members, name, names[j]);
        let w = choose|w: int|
            0 <= w < members.len() && shows_directory(#[trigger] members[w], name, names[j]);
        members.lemma_filter_contains(below, w);
        let i = choose|i: int| 0 <= i < found.len() && found[i] == members[w];
        assert(archive.members[i] == relative(found[i]));
        assert(archive.members[i].path.len() >= 2 || archive.members[i].kind == DIRECTORY);
    }
    assert forall|i: int| 0 <= i < one.files.len() implies is_plain(#[trigger] one.files[i])
        && !archive_names(one).contains(one.files[i].path[0]) by {
        let free = |m: ArchiveEntryView| is_plain_file(members, m, name);
        let kept = members.filter(free);
        members.lemma_filter_pred(free, i);
        assert(one.files[i] == relative(kept[i]));
        assert(kept.contains(kept[i]));
        members.lemma_filter_contains_rev(free, kept[i]);
        let w = choose|w: int| 0 <= w < members.len() && members[w] == kept[i];
        assert(!shows_directory(members[w], name, kept[i].path[1]));
        lemma_application_names(members, name, kept[i].path[1]);
    }
}

/// The tree that `members` unpack to is as unpacking makes it: it holds
/// every category once, and in every category one archive for each
/// application and plain files beside them; nothing of an application lies
/// outside its archive.
pub proof fn lemma_tree_shape(members: Seq<ArchiveEntryView>)
    ensures
        is_unpacked_tree(tree(members)),
{
    reveal(is_unpacked_tree);
    lemma_distinct(roots(members));
    assert(names_in(tree(members)) =~= category_names(members));
    assert forall|k: int| 0 <= k < tree(members).len() implies is_category(
        #[trigger] tree(members)[k],
    ) by {
        lemma_category_shape(members, category_names(members)[k]);
    }
}

/// Mapping a concatenation of blocks maps each block.
pub proof fn lemma_map_flatten<A, B>(blocks: Seq<Seq<A>>, f: spec_fn(A) -> B)
    ensures
        blocks.flatten().map_values(f) == blocks.map_values(|b: Seq<A>| b.map_values(f)).flatten(),
    decreases blocks.len(),
{
    let each = |b: Seq<A>| b.map_values(f);
    if blocks.len() == 0 {
        assert(blocks.flatten().map_values(f) =~= Seq::<B>::empty());
        assert(blocks.map_values(each) =~= Seq::<Seq<B>>::empty());
    } else {
        let rest = blocks.drop_first();
        lemma_map_flatten(rest, f);
        assert(blocks.map_values(each).drop_first() =~= rest.map_values(each));
        assert(blocks.flatten().map_values(f) =~= blocks.first().map_values(f)
            + rest.flatten().map_values(f));
    }
}

/// A run of one name after names that do not hold it adds that name once.
pub proof fn lemma_distinct_run(names: Seq<Seq<char>>, run: Seq<Seq<char>>, name: Seq<char>)
    requires
        run.len() >= 1,
        forall|i: int| 0 <= i < run.len() ==> #[trigger] run[i] == name,
        !names.contains(name),
    ensures
        distinct(names + run) == distinct(names).push(name),
    decreases run.len(),
{
    let init = run.drop_last();
    assert((names + run).drop_last() =~= names + init);
    assert((names + run).last() == name);
    lemma_distinct(names);
    if init.len() == 0 {
        assert(names + init =~= names);
    } else {
        assert forall|i: int| 0 <= i < init.len() implies #[trigger] init[i] == name by {
            assert(init[i] == run[i]);
        }
        lemma_distinct_run(names, init, name);
        assert(distinct(names).push(name)[distinct(names).len() as int] == name);
    }
}

/// Runs of names, each run of one name and no two runs of the same, hold
/// their names once each, in the order of the runs.
pub proof fn lemma_distinct_runs(runs: Seq<Seq<Seq<char>>>, names: Seq<Seq<char>>)
    requires
        runs.len() == names.len(),
        names.no_duplicates(),
        forall|k: int| 0 <= k < runs.len() ==> (#[trigger] runs[k]).len() >= 1,
        forall|k: int, i: int|
            0 <= k < runs.len() && 0 <= i < runs[k].len() ==> #[trigger] runs[k][i] == names[k],
    ensures
        distinct(runs.flatten()) == names,
    decreases runs.len(),
{
    if runs.len() == 0 {
        assert(names =~= Seq::<Seq<char>>::empty());
    } else {
        let before = runs.drop_last();
        let known = names.drop_last();
        assert forall|k: int, i: int|
            0 <= k < before.len() && 0 <= i < before[k].len() implies #[trigger] before[k][i]
            == known[k] by {
            assert(before[k] == runs[k]);
        }
        assert forall|k: int| 0 <= k < before.len() implies (#[trigger] before[k]).len() >= 1 by {
            assert(before[k] == runs[k]);
        }
        lemma_distinct_runs(before, known);
        assert(before.push(runs.last()) =~= runs);
        before.lemma_flatten_push(runs.last());
        lemma_distinct(before.flatten());
        if before.flatten().contains(names.last()) {
            assert(known.contains(names.last()));
            let j = choose|j: int| 0 <= j < known.len() && known[j] == names.last();
            assert(names[j] == names[names.len() - 1]);
        }
        lemma_distinct_run(before.flatten(), runs.last(), names.last());
        assert(known.push(names.last()) =~= names);
    }
}

/// Names that fail a test add nothing that passes it.
pub proof fn lemma_distinct_tail(
    names: Seq<Seq<char>>,
    tail: Seq<Seq<char>>,
    keep: spec_fn(Seq<char>) -> bool,
)
    requires
        forall|i: int| 0 <= i < tail.len() ==> !keep(#[trigger] tail[i]),
    ensures
        distinct(names + tail).filter(keep) == distinct(names).filter(keep),
    decreases tail.len(),
{
    if tail.len() == 0 {
        assert(names + tail =~= names);
    } else {
        let init = tail.drop_last();
        assert((names + tail).drop_last() =~= names + init);
        assert((names + tail).last() == tail.last());
        assert forall|i: int| 0 <= i < init.len() implies !keep(#[trigger] init[i]) by {
            assert(init[i] == tail[i]);
        }
        lemma_distinct_tail(names, init, keep);
        distinct(names + init).lemma_filter_push(tail.last(), keep);
    }
}

/// What the archives of a category unpack to, archive by archive.
pub open spec fn archived(category: CategoryView) -> Seq<ArchiveEntryView> {
    category.archives.map_values(
        |a: ApplicationArchiveView| all_prefixed(category.name, a.members),
    ).flatten()
}

/// Of what the archives of a category unpack to, a filter keeps everything
/// where every member of every archive passes it below the category.
pub proof fn lemma_archived_all(category: CategoryView, keep: spec_fn(ArchiveEntryView) -> bool)
    requires
        forall|j: int, i: int|
            0 <= j < category.archives.len() && 0 <= i < category.archives[j].members.len()
                ==> keep(prefixed(category.name, #[trigger] category.archives[j].members[i])),
    ensures
        archived(category).filter(keep) == archived(category),
{
    let blocks = category.archives.map_values(
        |a: ApplicationArchiveView| all_prefixed(category.name, a.members),
    );
    let kept = blocks.map_values(|b: Seq<ArchiveEntryView>| b.filter(keep));
    lemma_filter_flatten(blocks, keep);
    assert forall|j: int| 0 <= j < blocks.len() implies #[trigger] kept[j] == blocks[j] by {
        assert forall|i: int| 0 <= i < blocks[j].len() implies keep(#[trigger] blocks[j][i]) by {
            assert(blocks[j][i] == prefixed(category.name, category.archives[j].members[i]));
        }
        lemma_filter_all(blocks[j], keep);
    }
    assert(kept =~= blocks);
}

/// Of what the archives of a category unpack to, a filter keeps nothing
/// where no member of any archive passes it below the category.
pub proof fn lemma_archived_nothing(category: CategoryView, keep: spec_fn(ArchiveEntryView) -> bool)
    requires
        forall|j: int, i: int|
            0 <= j < category.archives.len() && 0 <= i < category.archives[j].members.len()
                ==> !keep(prefixed(category.name, #[trigger] category.archives[j].members[i])),
    ensures
        archived(category).filter(keep) == Seq::<ArchiveEntryView>::empty(),
{
    let blocks = category.archives.map_values(
        |a: ApplicationArchiveView| all_prefixed(category.name, a.members),
    );
    let kept = blocks.map_values(|b: Seq<ArchiveEntryView>| b.filter(keep));
    lemma_filter_flatten(blocks, keep);
    assert forall|j: int| 0 <= j < kept.len() implies (#[trigger] kept[j]).len() == 0 by {
        assert forall|i: int| 0 <= i < blocks[j].len() implies !keep(#[trigger] blocks[j][i]) by {
            assert(blocks[j][i] == prefixed(category.name, category.archives[j].members[i]));
        }
        lemma_filter_nothing(blocks[j], keep);
    }
    lemma_flatten_none(kept);
}

/// Of what the archives of a category unpack to, a filter keeps what one
/// archive unpacks to where it passes every member of that archive and no
/// member of another.
pub proof fn lemma_archived_one(
    category: CategoryView,
    keep: spec_fn(ArchiveEntryView) -> bool,
    which: int,
)
    requires
        0 <= which < category.archives.len(),
        forall|j: int, i: int|
            0 <= j < category.archives.len() && 0 <= i < category.archives[j].members.len()
                ==> (keep(prefixed(category.name, #[trigger] category.archives[j].members[i]))
                <==> j == which),
    ensures
        archived(category).filter(keep) == all_prefixed(
            category.name,
            category.archives[which].members,
        ),
{
    let blocks = category.archives.map_values(
        |a: ApplicationArchiveView| all_prefixed(category.name, a.members),
    );
    let kept = blocks.map_values(|b: Seq<ArchiveEntryView>| b.filter(keep));
    lemma_filter_flatten(blocks, keep);
    assert forall|j: int| 0 <= j < kept.len() && j != which implies (#[trigger] kept[j]).len()
        == 0 by {
        assert forall|i: int| 0 <= i < blocks[j].len() implies !keep(#[trigger] blocks[j][i]) by {
            assert(blocks[j][i] == prefixed(category.name, category.archives[j].members[i]));
        }
        lemma_filter_nothing(blocks[j], keep);
    }
    assert forall|i: int| 0 <= i < blocks[which].len() implies keep(
        #[trigger] blocks[which][i],
    ) by {
        assert(blocks[which][i] == prefixed(category.name, category.archives[which].members[i]));
    }
    lemma_filter_all(blocks[which], keep);
    lemma_flatten_only(kept, which);
}

/// What a filter keeps of what a category unpacks to: what it keeps of the
/// directory, of the archives and of the plain files, in that order.
pub proof fn lemma_filter_category(category: CategoryView, keep: spec_fn(ArchiveEntryView) -> bool)
    ensures
        category_members(category).filter(keep) == seq![directory(category.name)].filter(keep)
            + archived(category).filter(keep) + all_prefixed(category.name, category.files).filter(
            keep,
        ),
{
    let top = seq![directory(category.name)];
    let plain = all_prefixed(category.name, category.files);
    assert(category_members(category) == top + archived(category) + plain) by {
        reveal(category_members);
    }
    Seq::filter_distributes_over_add(top + archived(category), plain, keep);
    Seq::filter_distributes_over_add(top, archived(category), keep);
}

/// Everything that a category unpacks to lies in the category.
pub proof fn lemma_members_lie_in_category(category: CategoryView, i: int)
    requires
        0 <= i < category_members(category).len(),
    ensures
        category_members(category)[i].path.len() >= 1,
        category_members(category)[i].path[0] == category.name,
{
    let here = |m: ArchiveEntryView| m.path.len() >= 1 && m.path[0] == category.name;
    let top = seq![directory(category.name)];
    let plain = all_prefixed(category.name, category.files);
    lemma_filter_category(category, here);
    lemma_archived_all(category, here);
    assert forall|j: int| 0 <= j < top.len() implies here(#[trigger] top[j]) by {}
    lemma_filter_all(top, here);
    assert forall|j: int| 0 <= j < plain.len() implies here(#[trigger] plain[j]) by {}
    lemma_filter_all(plain, here);
    assert(category_members(category) == top + archived(category) + plain) by {
        reveal(category_members);
    }
    assert(category_members(category).filter(here) == category_members(category));
    category_members(category).lemma_filter_pred(here, i);
}

/// Of what a tree unpacks to, a filter that passes members of one category
/// only keeps what it keeps of what that category unpacks to.
pub proof fn lemma_filter_tree(
    tree: Seq<CategoryView>,
    keep: spec_fn(ArchiveEntryView) -> bool,
    which: int,
)
    requires
        names_in(tree).no_duplicates(),
        0 <= which < tree.len(),
        forall|m: ArchiveEntryView|
            #[trigger] keep(m) ==> m.path.len() >= 1 && m.path[0] == tree[which].name,
    ensures
        tree_members(tree).filter(keep) == category_members(tree[which]).filter(keep),
{
    let blocks = tree.map_values(|c: CategoryView| category_members(c));
    let kept = blocks.map_values(|b: Seq<ArchiveEntryView>| b.filter(keep));
    lemma_filter_flatten(blocks, keep);
    assert forall|k: int| 0 <= k < kept.len() && k != which implies (#[trigger] kept[k]).len()
        == 0 by {
        assert(names_in(tree)[k] != names_in(tree)[which]);
        assert forall|i: int| 0 <= i < blocks[k].len() implies !keep(#[trigger] blocks[k][i]) by {
            lemma_members_lie_in_category(tree[k], i);
        }
        lemma_filter_nothing(blocks[k], keep);
    }
    lemma_flatten_only(kept, which);
}

/// Every category of a tree as unpacking makes it is as unpacking makes it.
pub proof fn lemma_category_of(tree: Seq<CategoryView>, which: int)
    requires
        is_unpacked_tree(tree),
        0 <= which < tree.len(),
    ensures
        is_category(tree[which]),
{
    reveal(is_unpacked_tree);
}

/// No two categories of a tree as unpacking makes it have the same name.
pub proof fn lemma_categories_differ(tree: Seq<CategoryView>)
    requires
        is_unpacked_tree(tree),
    ensures
        names_in(tree).no_duplicates(),
{
    reveal(is_unpacked_tree);
}

/// Every archive of a category as unpacking makes it is as unpacking makes
/// it.
pub proof fn lemma_archive_of(one: CategoryView, j: int)
    requires
        is_category(one),
        0 <= j < one.archives.len(),
    ensures
        is_archive(one.archives[j]),
{
    reveal(is_category);
}

/// No two archives of a category as unpacking makes it have the same name.
pub proof fn lemma_archives_differ(one: CategoryView)
    requires
        is_category(one),
    ensures
        archive_names(one).no_duplicates(),
{
    reveal(is_category);
}

/// A file of a category as unpacking makes it is a plain file, and no
/// archive of the category is named like it.
pub proof fn lemma_file_of(one: CategoryView, i: int)
    requires
        is_category(one),
        0 <= i < one.files.len(),
    ensures
        is_plain(one.files[i]),
        !archive_names(one).contains(one.files[i].path[0]),
{
    reveal(is_category);
}

/// A member of an archive as unpacking makes it lies in the directory that
/// is named like the archive.
pub proof fn lemma_member_of(archive: ApplicationArchiveView, i: int)
    requires
        is_archive(archive),
        0 <= i < archive.members.len(),
    ensures
        archive.members[i].path.len() >= 1,
        archive.members[i].path[0] == archive.name,
{
    reveal(is_archive);
}

/// An archive as unpacking makes it has a member that is the directory of
/// the application or lies below it.
pub proof fn lemma_archive_shows(archive: ApplicationArchiveView) -> (w: int)
    requires
        is_archive(archive),
    ensures
        0 <= w < archive.members.len(),
        archive.members[w].path.len() >= 2 || archive.members[w].kind == DIRECTORY,
{
    reveal(is_archive);
    choose|w: int|
        0 <= w < archive.members.len() && ((#[trigger] archive.members[w]).path.len() >= 2
            || archive.members[w].kind == DIRECTORY)
}

/// What a category as unpacking makes it unpacks to holds no plain file at
/// the top.
pub proof fn lemma_category_no_top_files(one: CategoryView)
    requires
        is_category(one),
    ensures
        top_files(category_members(one)) == Seq::<ArchiveEntryView>::empty(),
{
    let stray = |m: ArchiveEntryView| is_plain(m);
    let top = seq![directory(one.name)];
    let plain = all_prefixed(one.name, one.files);
    lemma_filter_category(one, stray);
    assert forall|j: int| 0 <= j < top.len() implies !stray(#[trigger] top[j]) by {}
    lemma_filter_nothing(top, stray);
    assert forall|j: int, i: int|
        0 <= j < one.archives.len() && 0 <= i < one.archives[j].members.len() implies !stray(
        prefixed(one.name, #[trigger] one.archives[j].members[i]),
    ) by {
        lemma_archive_of(one, j);
        lemma_member_of(one.archives[j], i);
        assert(prefixed(one.name, one.archives[j].members[i]).path.len() >= 2);
    }
    lemma_archived_nothing(one, stray);
    assert forall|j: int| 0 <= j < plain.len() implies !stray(#[trigger] plain[j]) by {
        lemma_file_of(one, j);
        assert(plain[j].path.len() == 2);
    }
    lemma_filter_nothing(plain, stray);
    assert(top.filter(stray) + archived(one).filter(stray) + plain.filter(stray) =~= Seq::<
        ArchiveEntryView,
    >::empty());
}

/// What a tree as unpacking makes it unpacks to holds no plain file at the
/// top.
pub proof fn lemma_no_top_files(tree: Seq<CategoryView>)
    requires
        is_unpacked_tree(tree),
    ensures
        top_files(tree_members(tree)) == Seq::<ArchiveEntryView>::empty(),
{
    let stray = |m: ArchiveEntryView| is_plain(m);
    let blocks = tree.map_values(|c: CategoryView| category_members(c));
    let kept = blocks.map_values(|b: Seq<ArchiveEntryView>| b.filter(stray));
    lemma_filter_flatten(blocks, stray);
    assert forall|k: int| 0 <= k < kept.len() implies (#[trigger] kept[k]).len() == 0 by {
        lemma_category_of(tree, k);
        lemma_category_no_top_files(tree[k]);
        assert(kept[k] == top_files(category_members(tree[k])));
    }
    lemma_flatten_none(kept);
}

/// The first components of what a category unpacks to: the name of the
/// category, at least once, and nothing else.
pub proof fn lemma_roots_of_category(one: CategoryView)
    requires
        is_category(one),
    ensures
        roots(category_members(one)).len() >= 1,
        forall|i: int|
            0 <= i < roots(category_members(one)).len() ==> #[trigger] roots(
                category_members(one),
            )[i] == one.name,
{
    let rooted = |m: ArchiveEntryView| crate::ab_extracting::is_rooted(m);
    let root = |m: ArchiveEntryView| m.path[0];
    let block = category_members(one);
    assert(block.filter(rooted) == block) by {
        let plain = |m: ArchiveEntryView| is_plain(m);
        lemma_category_no_top_files(one);
        assert forall|i: int| 0 <= i < block.len() implies rooted(#[trigger] block[i]) by {
            lemma_members_lie_in_category(one, i);
            if is_plain(block[i]) {
                block.lemma_filter_contains(plain, i);
            }
        }
        lemma_filter_all(block, rooted);
    }
    assert(block.len() >= 1) by {
        reveal(category_members);
    }
    assert(roots(block) == block.map_values(root));
    assert forall|i: int| 0 <= i < roots(block).len() implies #[trigger] roots(block)[i]
        == one.name by {
        lemma_members_lie_in_category(one, i);
        assert(roots(block)[i] == block[i].path[0]);
    }
}

/// What a tree as unpacking makes it unpacks to has the categories of the
/// tree, in their order.
pub proof fn lemma_categories_back(tree: Seq<CategoryView>)
    requires
        is_unpacked_tree(tree),
    ensures
        category_names(tree_members(tree)) == names_in(tree),
{
    let rooted = |m: ArchiveEntryView| crate::ab_extracting::is_rooted(m);
    let root = |m: ArchiveEntryView| m.path[0];
    let blocks = tree.map_values(|c: CategoryView| category_members(c));
    let kept = blocks.map_values(|b: Seq<ArchiveEntryView>| b.filter(rooted));
    let runs = kept.map_values(|b: Seq<ArchiveEntryView>| b.map_values(root));
    assert(roots(tree_members(tree)) == runs.flatten()) by {
        lemma_filter_flatten(blocks, rooted);
        lemma_map_flatten(kept, root);
    }
    assert forall|k: int| 0 <= k < runs.len() implies (#[trigger] runs[k]).len() >= 1 by {
        assert(runs[k] == roots(category_members(tree[k])));
        lemma_category_of(tree, k);
        lemma_roots_of_category(tree[k]);
    }
    assert forall|k: int, i: int| 0 <= k < runs.len() && 0 <= i < runs[k].len() implies (
    #[trigger] runs[k][i]) == names_in(tree)[k] by {
        assert(runs[k] == roots(category_members(tree[k])));
        lemma_category_of(tree, k);
        lemma_roots_of_category(tree[k]);
    }
    lemma_categories_differ(tree);
    lemma_distinct_runs(runs, names_in(tree));
}

/// Whether a member of an archive of `one`, unpacked below the category,
/// lies below the entry `name`: it does where the archive is named so.
pub proof fn lemma_archived_under(one: CategoryView, name: Seq<char>, j: int, i: int)
    requires
        is_category(one),
        0 <= j < one.archives.len(),
        0 <= i < one.archives[j].members.len(),
    ensures
        is_under(prefixed(one.name, one.archives[j].members[i]), one.name, name)
            <==> one.archives[j].name == name,
{
    lemma_archive_of(one, j);
    lemma_member_of(one.archives[j], i);
    let put = prefixed(one.name, one.archives[j].members[i]);
    assert(put.path.len() >= 2);
    assert(put.path[0] == one.name);
    assert(put.path[1] == one.archives[j].members[i].path[0]);
}

/// Of what a category as unpacking makes it unpacks to, the members below
/// the entry that is named like its archive `which` are what that archive
/// unpacks to.
pub proof fn lemma_under_archive(one: CategoryView, which: int)
    requires
        is_category(one),
        0 <= which < one.archives.len(),
    ensures
        under(category_members(one), one.name, one.archives[which].name) == all_prefixed(
            one.name,
            one.archives[which].members,
        ),
{
    let name = one.archives[which].name;
    let below = |m: ArchiveEntryView| is_under(m, one.name, name);
    let top = seq![directory(one.name)];
    let plain = all_prefixed(one.name, one.files);
    lemma_filter_category(one, below);
    assert forall|j: int| 0 <= j < top.len() implies !below(#[trigger] top[j]) by {}
    lemma_filter_nothing(top, below);
    lemma_archives_differ(one);
    assert forall|a: int, i: int|
        0 <= a < one.archives.len() && 0 <= i < one.archives[a].members.len() implies (below(
        prefixed(one.name, #[trigger] one.archives[a].members[i]),
    ) <==> a == which) by {
        lemma_archived_under(one, name, a, i);
        assert(archive_names(one)[a] == one.archives[a].name);
        assert(archive_names(one)[which] == name);
    }
    lemma_archived_one(one, below, which);
    assert forall|i: int| 0 <= i < plain.len() implies !below(#[trigger] plain[i]) by {
        lemma_file_of(one, i);
        assert(plain[i].path[1] == one.files[i].path[0]);
        assert(archive_names(one)[which] == name);
    }
    lemma_filter_nothing(plain, below);
    assert(top.filter(below) + archived(one).filter(below) + plain.filter(below) =~= all_prefixed(
        one.name,
        one.archives[which].members,
    ));
}

/// Of what a category as unpacking makes it unpacks to, the members below
/// an entry for which it has no archive are plain files.
pub proof fn lemma_under_no_archive(one: CategoryView, name: Seq<char>)
    requires
        is_category(one),
        !archive_names(one).contains(name),
    ensures
        under(category_members(one), one.name, name) == under(
            all_prefixed(one.name, one.files),
            one.name,
            name,
        ),
{
    let below = |m: ArchiveEntryView| is_under(m, one.name, name);
    let top = seq![directory(one.name)];
    let plain = all_prefixed(one.name, one.files);
    lemma_filter_category(one, below);
    assert forall|j: int| 0 <= j < top.len() implies !below(#[trigger] top[j]) by {}
    lemma_filter_nothing(top, below);
    assert forall|a: int, i: int|
        0 <= a < one.archives.len() && 0 <= i < one.archives[a].members.len() implies !below(
        prefixed(one.name, #[trigger] one.archives[a].members[i]),
    ) by {
        lemma_archived_under(one, name, a, i);
        assert(archive_names(one)[a] == one.archives[a].name);
    }
    lemma_archived_nothing(one, below);
    assert(top.filter(below) + archived(one).filter(below) + plain.filter(below) =~= plain.filter(
        below,
    ));
}

/// Of what a tree as unpacking makes it unpacks to, the members below an
/// entry of a category are those of what the category unpacks to.
pub proof fn lemma_under_category(tree: Seq<CategoryView>, which: int, name: Seq<char>)
    requires
        is_unpacked_tree(tree),
        0 <= which < tree.len(),
    ensures
        under(tree_members(tree), tree[which].name, name) == under(
            category_members(tree[which]),
            tree[which].name,
            name,
        ),
{
    let below = |m: ArchiveEntryView| is_under(m, tree[which].name, name);
    lemma_categories_differ(tree);
    lemma_filter_tree(tree, below, which);
}

/// In what a tree as unpacking makes it unpacks to, the applications of a
/// category are the entries that the category has an archive for.
pub proof fn lemma_applications_back(tree: Seq<CategoryView>, which: int, name: Seq<char>)
    requires
        is_unpacked_tree(tree),
        0 <= which < tree.len(),
    ensures
        is_application(tree_members(tree), tree[which].name, name) <==> archive_names(
            tree[which],
        ).contains(name),
{
    let one = tree[which];
    let all = tree_members(tree);
    let below = |m: ArchiveEntryView| is_under(m, one.name, name);
    let found = under(all, one.name, name);
    lemma_category_of(tree, which);
    lemma_under_category(tree, which, name);
    if archive_names(one).contains(name) {
        let j = choose|j: int| 0 <= j < archive_names(one).len() && archive_names(one)[j] == name;
        assert(one.archives[j].name == name);
        lemma_under_archive(one, j);
        lemma_archive_of(one, j);
        let w = lemma_archive_shows(one.archives[j]);
        assert(found[w] == prefixed(one.name, one.archives[j].members[w]));
        assert(found.contains(found[w]));
        all.lemma_filter_contains_rev(below, found[w]);
        let i = choose|i: int| 0 <= i < all.len() && all[i] == found[w];
        all.lemma_filter_pred(below, w);
        assert(shows_directory(all[i], one.name, name));
    } else {
        lemma_under_no_archive(one, name);
        if is_application(all, one.name, name) {
            let i = choose|i: int|
                0 <= i < all.len() && shows_directory(#[trigger] all[i], one.name, name);
            all.lemma_filter_contains(below, i);
            let plain = all_prefixed(one.name, one.files);
            plain.lemma_filter_contains_rev(below, all[i]);
            let f = choose|f: int| 0 <= f < plain.len() && plain[f] == all[i];
            lemma_file_of(one, f);
            assert(plain[f].path.len() == 2);
            assert(false);
        }
    }
}

/// The members of a category as unpacking makes it that lie inside it: all
/// but its directory.
pub proof fn lemma_inside_category(one: CategoryView)
    requires
        is_category(one),
    ensures
        category_members(one).filter(|m: ArchiveEntryView| is_inside(m, one.name)) == archived(one)
            + all_prefixed(one.name, one.files),
{
    let within = |m: ArchiveEntryView| is_inside(m, one.name);
    let top = seq![directory(one.name)];
    let plain = all_prefixed(one.name, one.files);
    lemma_filter_category(one, within);
    assert forall|j: int| 0 <= j < top.len() implies !within(#[trigger] top[j]) by {}
    lemma_filter_nothing(top, within);
    assert forall|j: int, i: int|
        0 <= j < one.archives.len() && 0 <= i < one.archives[j].members.len() implies within(
        prefixed(one.name, #[trigger] one.archives[j].members[i]),
    ) by {
        lemma_archive_of(one, j);
        lemma_member_of(one.archives[j], i);
        assert(prefixed(one.name, one.archives[j].members[i]).path.len() >= 2);
    }
    lemma_archived_all(one, within);
    assert forall|j: int| 0 <= j < plain.len() implies within(#[trigger] plain[j]) by {
        lemma_file_of(one, j);
        assert(plain[j].path.len() == 2);
    }
    lemma_filter_all(plain, within);
    assert(top.filter(within) + archived(one).filter(within) + plain.filter(within)
        =~= archived(one) + plain);
}

/// The second components of what the archives of a category as unpacking
/// makes it unpack to hold the names of the archives, once each and in
/// their order.
pub proof fn lemma_archived_names(one: CategoryView)
    requires
        is_category(one),
    ensures
        distinct(archived(one).map_values(|m: ArchiveEntryView| m.path[1])) == archive_names(one),
{
    let second = |m: ArchiveEntryView| m.path[1];
    let blocks = one.archives.map_values(
        |a: ApplicationArchiveView| all_prefixed(one.name, a.members),
    );
    let runs = blocks.map_values(|b: Seq<ArchiveEntryView>| b.map_values(second));
    lemma_map_flatten(blocks, second);
    assert forall|k: int| 0 <= k < runs.len() implies (#[trigger] runs[k]).len() >= 1 by {
        lemma_archive_of(one, k);
        let w = lemma_archive_shows(one.archives[k]);
    }
    assert forall|k: int, i: int| 0 <= k < runs.len() && 0 <= i < runs[k].len() implies (
    #[trigger] runs[k][i]) == archive_names(one)[k] by {
        lemma_archive_of(one, k);
        lemma_member_of(one.archives[k], i);
        assert(blocks[k][i] == prefixed(one.name, one.archives[k].members[i]));
        assert(blocks[k][i].path[1] == one.archives[k].members[i].path[0]);
    }
    lemma_archives_differ(one);
    lemma_distinct_runs(runs, archive_names(one));
}

/// In what a tree as unpacking makes it unpacks to, the applications of a
/// category are those that the category has archives for, in the order of
/// the archives.
pub proof fn lemma_application_names_back(tree: Seq<CategoryView>, which: int)
    requires
        is_unpacked_tree(tree),
        0 <= which < tree.len(),
    ensures
        application_names(tree_members(tree), tree[which].name) == archive_names(tree[which]),
{
    let one = tree[which];
    let all = tree_members(tree);
    let within = |m: ArchiveEntryView| is_inside(m, one.name);
    let second = |m: ArchiveEntryView| m.path[1];
    let packed = |a: Seq<char>| is_application(all, one.name, a);
    let plain = all_prefixed(one.name, one.files);
    lemma_category_of(tree, which);
    lemma_categories_differ(tree);
    lemma_filter_tree(tree, within, which);
    lemma_inside_category(one);
    let inner = all.filter(within);
    assert(inner == archived(one) + plain);
    let head = archived(one).map_values(second);
    let tail = plain.map_values(second);
    assert(inner.map_values(second) =~= head + tail);
    lemma_archived_names(one);
    assert forall|i: int| 0 <= i < tail.len() implies !packed(#[trigger] tail[i]) by {
        lemma_file_of(one, i);
        assert(tail[i] == one.files[i].path[0]);
        lemma_applications_back(tree, which, tail[i]);
    }
    lemma_distinct_tail(head, tail, packed);
    assert forall|j: int| 0 <= j < archive_names(one).len() implies packed(
        #[trigger] archive_names(one)[j],
    ) by {
        assert(archive_names(one).contains(archive_names(one)[j]));
        lemma_applications_back(tree, which, archive_names(one)[j]);
    }
    lemma_filter_all(archive_names(one), packed);
}

/// What a tree as unpacking makes it unpacks to, unpacked again, has the
/// archives of every category as they were.
pub proof fn lemma_archives_back(tree: Seq<CategoryView>, which: int)
    requires
        is_unpacked_tree(tree),
        0 <= which < tree.len(),
    ensures
        crate::ab_extracting::category(tree_members(tree), tree[which].name).archives
            == tree[which].archives,
{
    let one = tree[which];
    let all = tree_members(tree);
    let back = crate::ab_extracting::category(all, one.name);
    lemma_category_of(tree, which);
    lemma_application_names_back(tree, which);
    assert(back.archives.len() == one.archives.len());
    assert forall|j: int| 0 <= j < one.archives.len() implies #[trigger] back.archives[j]
        == one.archives[j] by {
        let name = one.archives[j].name;
        assert(archive_names(one)[j] == name);
        assert(back.archives[j] == application(all, one.name, name));
        lemma_under_category(tree, which, name);
        lemma_under_archive(one, j);
        let found = under(all, one.name, name);
        assert(found == all_prefixed(one.name, one.archives[j].members));
        assert forall|i: int| 0 <= i < found.len() implies relative(#[trigger] found[i])
            == one.archives[j].members[i] by {
            assert(relative(found[i]).path =~= one.archives[j].members[i].path);
        }
        assert(back.archives[j].members =~= one.archives[j].members);
    }
    assert(back.archives =~= one.archives);
}

/// Putting members below a category and taking them from the category
/// downwards again changes nothing.
pub proof fn lemma_relative_prefixed(name: Seq<char>, members: Seq<ArchiveEntryView>)
    ensures
        all_prefixed(name, members).map_values(|m: ArchiveEntryView| relative(m)) == members,
{
    let back = all_prefixed(name, members).map_values(|m: ArchiveEntryView| relative(m));
    assert forall|i: int| 0 <= i < members.len() implies #[trigger] back[i] == members[i] by {
        assert(back[i].path =~= members[i].path);
    }
    assert(back =~= members);
}

/// Of what a category unpacks to, a filter keeps the plain files where it
/// passes each of them, and neither the directory nor a member of an
/// archive.
pub proof fn lemma_keep_files(one: CategoryView, keep: spec_fn(ArchiveEntryView) -> bool)
    requires
        !keep(directory(one.name)),
        forall|j: int, i: int|
            0 <= j < one.archives.len() && 0 <= i < one.archives[j].members.len() ==> !keep(
                prefixed(one.name, #[trigger] one.archives[j].members[i]),
            ),
        forall|i: int| 0 <= i < one.files.len() ==> keep(prefixed(one.name, #[trigger] one.files[i])),
    ensures
        category_members(one).filter(keep) == all_prefixed(one.name, one.files),
{
    let top = seq![directory(one.name)];
    let plain = all_prefixed(one.name, one.files);
    let nothing = Seq::<ArchiveEntryView>::empty();
    assert(top.filter(keep) == nothing) by {
        assert forall|j: int| 0 <= j < top.len() implies !keep(#[trigger] top[j]) by {
            assert(top[j] == directory(one.name));
        }
        lemma_filter_nothing(top, keep);
    }
    assert(archived(one).filter(keep) == nothing) by {
        lemma_archived_nothing(one, keep);
    }
    assert(plain.filter(keep) == plain) by {
        assert forall|i: int| 0 <= i < plain.len() implies keep(#[trigger] plain[i]) by {
            assert(plain[i] == prefixed(one.name, one.files[i]));
        }
        lemma_filter_all(plain, keep);
    }
    assert(category_members(one).filter(keep) == nothing + nothing + plain) by {
        lemma_filter_category(one, keep);
    }
    assert(nothing + nothing + plain =~= plain);
}

/// In what a tree as unpacking makes it unpacks to, a member of an archive
/// is no plain file of its category.
pub proof fn lemma_archived_not_plain(tree: Seq<CategoryView>, which: int, j: int, i: int)
    requires
        is_unpacked_tree(tree),
        0 <= which < tree.len(),
        0 <= j < tree[which].archives.len(),
        0 <= i < tree[which].archives[j].members.len(),
    ensures
        !is_plain_file(
            tree_members(tree),
            prefixed(tree[which].name, tree[which].archives[j].members[i]),
            tree[which].name,
        ),
{
    let one = tree[which];
    lemma_category_of(tree, which);
    lemma_archived_under(one, one.archives[j].name, j, i);
    assert(archive_names(one)[j] == one.archives[j].name);
    assert(archive_names(one).contains(one.archives[j].name));
    lemma_applications_back(tree, which, one.archives[j].name);
}

/// In what a tree as unpacking makes it unpacks to, a file of a category
/// is a plain file of that category.
pub proof fn lemma_file_is_plain(tree: Seq<CategoryView>, which: int, i: int)
    requires
        is_unpacked_tree(tree),
        0 <= which < tree.len(),
        0 <= i < tree[which].files.len(),
    ensures
        is_plain_file(
            tree_members(tree),
            prefixed(tree[which].name, tree[which].files[i]),
            tree[which].name,
        ),
{
    let one = tree[which];
    let put = prefixed(one.name, one.files[i]);
    lemma_category_of(tree, which);
    lemma_file_of(one, i);
    assert(put.path.len() == 2);
    assert(put.path[0] == one.name);
    assert(put.path[1] == one.files[i].path[0]);
    lemma_applications_back(tree, which, one.files[i].path[0]);
}

/// What a tree as unpacking makes it unpacks to, unpacked again, has the
/// plain files of every category as they were.
pub proof fn lemma_files_back(tree: Seq<CategoryView>, which: int)
    requires
        is_unpacked_tree(tree),
        0 <= which < tree.len(),
    ensures
        plain_files(tree_members(tree), tree[which].name) == tree[which].files,
{
    let one = tree[which];
    let all = tree_members(tree);
    let free = |m: ArchiveEntryView| is_plain_file(all, m, one.name);
    assert(all.filter(free) == category_members(one).filter(free)) by {
        lemma_categories_differ(tree);
        lemma_filter_tree(tree, free, which);
    }
    assert(category_members(one).filter(free) == all_prefixed(one.name, one.files)) by {
        assert forall|j: int, i: int|
            0 <= j < one.archives.len() && 0 <= i < one.archives[j].members.len() implies !free(
            prefixed(one.name, #[trigger] one.archives[j].members[i]),
        ) by {
            lemma_archived_not_plain(tree, which, j, i);
        }
        assert forall|i: int| 0 <= i < one.files.len() implies free(
            prefixed(one.name, #[trigger] one.files[i]),
        ) by {
            lemma_file_is_plain(tree, which, i);
        }
        lemma_keep_files(one, free);
    }
    lemma_relative_prefixed(one.name, one.files);
}

/// Packing and unpacking again gives back the tree: a tree as unpacking
/// makes it is what its own members unpack to. With it, every archive of
/// every application is what it was, member for member.
pub proof fn lemma_pack_then_extract(tree: Seq<CategoryView>)
    requires
        is_unpacked_tree(tree),
    ensures
        crate::ab_extracting::tree(tree_members(tree)) == tree,
        top_files(tree_members(tree)) == Seq::<ArchiveEntryView>::empty(),
{
    let all = tree_members(tree);
    let back = crate::ab_extracting::tree(all);
    lemma_no_top_files(tree);
    lemma_categories_back(tree);
    assert(back.len() == tree.len());
    assert forall|k: int| 0 <= k < tree.len() implies #[trigger] back[k] == tree[k] by {
        assert(category_names(all)[k] == tree[k].name);
        lemma_archives_back(tree, k);
        lemma_files_back(tree, k);
    }
    assert(back =~= tree);
}

/// Unpacking, packing and unpacking again gives the tree of the first
/// unpacking.
pub proof fn lemma_extract_pack_extract(members: Seq<ArchiveEntryView>)
    ensures
        crate::ab_extracting::tree(tree_members(crate::ab_extracting::tree(members)))
            == crate::ab_extracting::tree(members),
{
    lemma_tree_shape(members);
    lemma_pack_then_extract(crate::ab_extracting::tree(members));
}

/// Unpacking loses no member that can be placed: a member below the top
/// lies in the tree, below its category and its entry; a plain file at the
/// top is among the files that are handed out; a directory at the top is a
/// category.
pub proof fn lemma_nothing_lost(members: Seq<ArchiveEntryView>, i: int)
    requires
        0 <= i < members.len(),
    ensures
        members[i].path.len() >= 2 ==> tree_members(crate::ab_extracting::tree(members)).contains(
            members[i],
        ),
        is_plain(members[i]) ==> top_files(members).contains(members[i]),
        members[i].path.len() == 1 && members[i].kind == DIRECTORY ==> category_names(
            members,
        ).contains(members[i].path[0]),
{
    let one = members[i];
    if one.path.len() >= 2 {
        let below = |m: ArchiveEntryView| is_under(m, one.path[0], one.path[1]);
        let back = tree_members(crate::ab_extracting::tree(members));
        lemma_round_trip(members, one.path[0], one.path[1]);
        members.lemma_filter_contains(below, i);
        back.lemma_filter_contains_rev(below, one);
    }
    if is_plain(one) {
        members.lemma_filter_contains(|m: ArchiveEntryView| is_plain(m), i);
    }
    if one.path.len() == 1 && one.kind == DIRECTORY {
        let rooted = |m: ArchiveEntryView| crate::ab_extracting::is_rooted(m);
        members.lemma_filter_contains(rooted, i);
        let top = members.filter(rooted);
        let j = choose|j: int| 0 <= j < top.len() && top[j] == one;
        assert(roots(members)[j] == one.path[0]);
        assert(roots(members).contains(one.path[0]));
        lemma_distinct(roots(members));
    }
}

/// Unpacking adds no member below the top: what lies below a category of
/// the tree was a member.
pub proof fn lemma_nothing_added(members: Seq<ArchiveEntryView>, one: ArchiveEntryView)
    requires
        tree_members(crate::ab_extracting::tree(members)).contains(one),
        one.path.len() >= 2,
    ensures
        members.contains(one),
{
    let below = |m: ArchiveEntryView| is_under(m, one.path[0], one.path[1]);
    let back = tree_members(crate::ab_extracting::tree(members));
    lemma_round_trip(members, one.path[0], one.path[1]);
    let i = choose|i: int| 0 <= i < back.len() && back[i] == one;
    back.lemma_filter_contains(below, i);
    members.lemma_filter_contains_rev(below, one);
}

/// The folder that an archive stands for is the folder that the archive
/// was named after.
pub proof fn lemma_folder_of_archive(folder: Seq<char>, suffix: Seq<char>)
    ensures
        crate::text::without_suffix(folder + suffix, suffix) == folder,
{
    let name = folder + suffix;
    assert(name.subrange(name.len() - suffix.len(), name.len() as int) =~= suffix);
    assert(name.subrange(0, name.len() - suffix.len()) =~= folder);
}

} // verus!
