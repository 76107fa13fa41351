//! Which calendars there are, and which one is meant.

use crate::calendar::{
    behind, ini_lookup, lookup, lookup_string, lowered_names, match_from, search_after, search_at,
    source_of, sources_of, target, uid_from, PropData, SearchData, SourceData, DEFAULT_CAL_UID,
};
use crate::split::lines;
use crate::text::{lowercased, trim};
use crate::text_laws::{has_at, has_part, law_first_occurrence_is_found};
use vstd::prelude::*;

verus! {

// ---------------------------------------------------------------------------
// Reading
// ---------------------------------------------------------------------------

/// Whether a key occurs among properties.
pub open spec fn has_key(props: Seq<PropData>, key: Seq<char>) -> bool {
    exists|i: int| 0 <= i < props.len() && (#[trigger] props[i]).key == key
}

proof fn lemma_lookup(props: Seq<PropData>, key: Seq<char>, n: int)
    requires
        0 <= n <= props.len(),
        n < props.len() ==> props[n].key == key,
        forall|i: int| 0 <= i < n ==> (#[trigger] props[i]).key != key,
    ensures
        n < props.len() ==> lookup(props, key) == Some(props[n].value),
        n == props.len() ==> lookup(props, key) is None,
    decreases props.len(),
{
    if n > 0 {
        let rest = props.drop_first();
        assert(props[0].key != key);
        assert forall|i: int| 0 <= i < n - 1 implies (#[trigger] rest[i]).key != key by {
            assert(rest[i] == props[i + 1]);
        }
        lemma_lookup(rest, key, n - 1);
    }
}

/// The value of a key is that of the first property that has it, in the first interface
/// that has one; interfaces without it do not matter.
pub proof fn law_first_property_counts(
    before: Seq<Seq<PropData>>,
    props: Seq<PropData>,
    after: Seq<Seq<PropData>>,
    key: Seq<char>,
    n: int,
)
    requires
        forall|i: int| 0 <= i < before.len() ==> !has_key(#[trigger] before[i], key),
        0 <= n < props.len(),
        props[n].key == key,
        forall|i: int| 0 <= i < n ==> (#[trigger] props[i]).key != key,
    ensures
        lookup_string(before + seq![props] + after, key) == props[n].value,
        lookup_string(before, key) is None,
    decreases before.len(),
{
    let all = before + seq![props] + after;
    if before.len() == 0 {
        assert(all[0] == props);
        lemma_lookup(props, key, n);
    } else {
        let rest = before.drop_first();
        assert forall|i: int| 0 <= i < rest.len() implies !has_key(#[trigger] rest[i], key) by {
            assert(rest[i] == before[i + 1]);
        }
        law_first_property_counts(rest, props, after, key, n);
        assert(all.drop_first() =~= rest + seq![props] + after);
        assert(all[0] == before[0]);
        let head = before[0];
        assert(!has_key(head, key));
        assert forall|i: int| 0 <= i < head.len() implies (#[trigger] head[i]).key != key by {}
        lemma_lookup(head, key, head.len() as int);
    }
}

proof fn lemma_behind(all: Seq<Seq<char>>, prefix: Seq<char>, n: int)
    requires
        0 <= n <= all.len(),
        n < all.len() ==> has_at(all[n], prefix, 0),
        forall|i: int| 0 <= i < n ==> !has_at(#[trigger] all[i], prefix, 0),
    ensures
        n < all.len() ==> behind(all, prefix) == Some(all[n].skip(prefix.len() as int)),
        n == all.len() ==> behind(all, prefix) is None,
    decreases all.len(),
{
    if all.len() > 0 {
        law_first_occurrence_is_found(all[0], prefix);
        if n > 0 {
            assert(!has_at(all[0], prefix, 0));
            let rest = all.drop_first();
            assert forall|i: int| 0 <= i < n - 1 implies !has_at(
                #[trigger] rest[i],
                prefix,
                0,
            ) by {
                assert(rest[i] == all[i + 1]);
            }
            lemma_behind(rest, prefix, n - 1);
        }
    }
}

/// The value of a key in a settings text is what stands behind the key and an equals
/// sign in the first line that starts with them, to the end of the line, as it is.
pub proof fn law_first_setting_counts(ini: Seq<char>, key: Seq<char>, n: int)
    requires
        0 <= n <= lines(ini).len(),
        n < lines(ini).len() ==> has_at(lines(ini)[n], key + seq!['='], 0),
        forall|i: int|
            0 <= i < n ==> !has_at(#[trigger] lines(ini)[i], key + seq!['='], 0),
    ensures
        n < lines(ini).len() ==> ini_lookup(ini, key) == Some(
            lines(ini)[n].skip(key.len() as int + 1),
        ),
        n == lines(ini).len() ==> ini_lookup(ini, key) is None,
{
    assert(key.push('=') =~= key + seq!['=']);
    lemma_behind(lines(ini), key + seq!['='], n);
}

/// An object is a calendar if it has data with a calendar's group, and a uid, by which
/// it goes unless its data have a name for it.
pub proof fn law_calendars_are_told_apart(ifaces: Seq<Seq<PropData>>)
    ensures
        ({
            let data = lookup_string(ifaces, "Data"@);
            let uid = lookup_string(ifaces, "UID"@);
            let r = source_of(ifaces);
            &&& r is Some <==> data is Some && uid is Some && exists|i: int|
                0 <= i < lines(data->0).len() && trim(#[trigger] lines(data->0)[i])
                    == "[Calendar]"@
            &&& r matches Some(s) ==> {
                &&& s.uid == uid->0
                &&& s.name == ini_lookup(data->0, "DisplayName"@).unwrap_or(uid->0)
            }
        }),
{
}

/// All objects that are calendars are listed, in order, and no others.
pub proof fn law_all_calendars_are_listed(
    a: Seq<Seq<Seq<PropData>>>,
    b: Seq<Seq<Seq<PropData>>>,
)
    ensures
        sources_of(a + b) == sources_of(a) + sources_of(b),
        a.len() == 0 ==> sources_of(a).len() == 0,
        a.len() == 1 ==> sources_of(a) == match source_of(a[0]) {
            Some(s) => seq![s],
            None => seq![],
        },
    decreases b.len(),
{
    if a.len() == 1 {
        assert(a.drop_last() =~= Seq::<Seq<Seq<PropData>>>::empty());
        reveal_with_fuel(sources_of, 2);
        match source_of(a[0]) {
            Some(s) => {
                assert(Seq::<SourceData>::empty().push(s) =~= seq![s]);
            },
            None => {},
        }
    }
    if b.len() == 0 {
        assert(a + b =~= a);
        assert(sources_of(a) + sources_of(b) =~= sources_of(a));
    } else {
        law_all_calendars_are_listed(a, b.drop_last());
        assert((a + b).drop_last() =~= a + b.drop_last());
        assert((a + b).last() == b.last());
        assert(sources_of(a + b) =~= sources_of(a) + sources_of(b));
    }
}

// ---------------------------------------------------------------------------
// Choosing
// ---------------------------------------------------------------------------

/// Whether a calendar is meant by a name: the name is its uid, or part of its name in any
/// case.
pub open spec fn is_meant(s: SourceData, name: Seq<char>) -> bool {
    s.uid == name || has_part(lowercased(s.name), lowercased(name))
}

proof fn lemma_first_match(sources: Seq<SourceData>, name: Seq<char>, from: int, n: int)
    requires
        0 <= from <= n <= sources.len(),
        n < sources.len() ==> is_meant(sources[n], name),
        forall|i: int| from <= i < n ==> !is_meant(#[trigger] sources[i], name),
    ensures
        match_from(sources, lowered_names(sources), name, lowercased(name), from) == if n
            < sources.len() {
            Some(n)
        } else {
            None::<int>
        },
    decreases sources.len() - from,
{
    if from < sources.len() {
        law_first_occurrence_is_found(lowercased(sources[from].name), lowercased(name));
        if from < n {
            assert(!is_meant(sources[from], name));
            lemma_first_match(sources, name, from + 1, n);
        }
    }
}

/// The calendar that is named is the first one that the name can mean. If it can mean
/// none, that is an error, which tells the name.
pub proof fn law_first_match_is_the_target(sources: Seq<SourceData>, name: Seq<char>, n: int)
    requires
        0 <= n <= sources.len(),
        n < sources.len() ==> is_meant(sources[n], name),
        forall|i: int| 0 <= i < n ==> !is_meant(#[trigger] sources[i], name),
    ensures
        n < sources.len() ==> target(sources, Some(name)) == Ok::<SourceData, Seq<char>>(
            sources[n],
        ),
        n == sources.len() ==> target(sources, Some(name)) == Err::<SourceData, Seq<char>>(
            "no calendar matching \""@ + name + seq!['"'],
        ),
{
    reveal_strlit("\"");
    assert("\""@ =~= seq!['"']);
    lemma_first_match(sources, name, 0, n);
}

proof fn lemma_first_uid(sources: Seq<SourceData>, uid: Seq<char>, from: int, n: int)
    requires
        0 <= from <= n <= sources.len(),
        n < sources.len() ==> sources[n].uid == uid,
        forall|i: int| from <= i < n ==> (#[trigger] sources[i]).uid != uid,
    ensures
        uid_from(sources, uid, from) == if n < sources.len() {
            Some(n)
        } else {
            None::<int>
        },
    decreases sources.len() - from,
{
    if from < n {
        assert(sources[from].uid != uid);
        lemma_first_uid(sources, uid, from + 1, n);
    }
}

/// Where none is named, the calendar of the system is meant, or the first one if that is
/// not there. No calendars at all is an error.
pub proof fn law_system_calendar_is_the_default(sources: Seq<SourceData>, n: int)
    requires
        0 <= n <= sources.len(),
        n < sources.len() ==> sources[n].uid == "system-calendar"@,
        forall|i: int| 0 <= i < n ==> (#[trigger] sources[i]).uid != "system-calendar"@,
    ensures
        n < sources.len() ==> target(sources, None) == Ok::<SourceData, Seq<char>>(sources[n]),
        n == sources.len() && n > 0 ==> target(sources, None) == Ok::<SourceData, Seq<char>>(
            sources[0],
        ),
        sources.len() == 0 ==> target(sources, None) == Err::<SourceData, Seq<char>>(
            "no calendars available"@,
        ),
{
    lemma_first_uid(sources, DEFAULT_CAL_UID@, 0, n);
}

// ---------------------------------------------------------------------------
// Searching
// ---------------------------------------------------------------------------

/// The calendars are asked one after another, from the first, until one answers with a
/// text. Behind the last one the search fails, and tells the uid.
pub proof fn law_calendars_are_asked_in_turn(
    count: nat,
    uid: Seq<char>,
    i: int,
    ics: Option<Seq<char>>,
)
    requires
        0 <= i < count,
    ensures
        search_at(count, uid, 0) == SearchData::Try(0),
        search_at(0, uid, 0) == SearchData::Missing(
            "no event with uid \""@ + uid + "\" found in any calendar"@,
        ),
        ics is Some && (ics->0).len() > 0 ==> search_after(count, uid, i, ics)
            == SearchData::Found(i),
        (ics is None || (ics->0).len() == 0) && i + 1 < count ==> search_after(count, uid, i, ics)
            == SearchData::Try(i + 1),
        (ics is None || (ics->0).len() == 0) && i + 1 == count ==> search_after(
            count,
            uid,
            i,
            ics,
        ) == SearchData::Missing("no event with uid \""@ + uid + "\" found in any calendar"@),
{
}

} // verus!
