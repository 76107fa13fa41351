//! The calendars of the user: which there are, and which one is meant.
//!
//! The calendars themselves are read and written over D-Bus, outside of this
//! library; here stands what is decided from what was read.

use crate::split::{lines, lines_of, pieces};
use crate::text::{
    chars_of, contains, contains_str, lowercase, lowercased, opt_str, opt_view, same, same_str,
    starts, string_of, strip_prefix, trim, trimmed, views,
};
use vstd::prelude::*;

verus! {

/// UID of the built-in writable local calendar, the default target when the
/// model names no calendar.
pub const DEFAULT_CAL_UID: &'static str = "system-calendar";

/// A calendar.
pub struct CalSource {
    pub uid: String,
    pub name: String,
}

pub struct SourceData {
    pub uid: Seq<char>,
    pub name: Seq<char>,
}

impl View for CalSource {
    type V = SourceData;

    open spec fn view(&self) -> SourceData {
        SourceData { uid: self.uid@, name: self.name@ }
    }
}

pub open spec fn source_views(v: Seq<CalSource>) -> Seq<SourceData> {
    Seq::new(v.len(), |i: int| v[i]@)
}

/// A copy of a calendar.
pub fn copy_source(s: &CalSource) -> (r: CalSource)
    ensures
        r@ == s@,
{
    CalSource { uid: s.uid.clone(), name: s.name.clone() }
}

// ---------------------------------------------------------------------------
// Finding calendars
// ---------------------------------------------------------------------------

/// A property of a managed object: its key, and its value if that is a string.
pub struct Prop {
    pub key: String,
    pub value: Option<String>,
}

pub struct PropData {
    pub key: Seq<char>,
    pub value: Option<Seq<char>>,
}

impl View for Prop {
    type V = PropData;

    open spec fn view(&self) -> PropData {
        PropData { key: self.key@, value: opt_view(self.value) }
    }
}

/// The properties of one interface.
pub open spec fn prop_views(v: Seq<Prop>) -> Seq<PropData> {
    Seq::new(v.len(), |i: int| v[i]@)
}

/// The properties of each interface of an object.
pub open spec fn iface_views(v: Seq<Vec<Prop>>) -> Seq<Seq<PropData>> {
    Seq::new(v.len(), |i: int| prop_views(v[i]@))
}

/// The properties of each interface of each object.
pub open spec fn object_views(v: Seq<Vec<Vec<Prop>>>) -> Seq<Seq<Seq<PropData>>> {
    Seq::new(v.len(), |i: int| iface_views(v[i]@))
}

/// The first property with the key, if there is one: its value.
pub open spec fn lookup(props: Seq<PropData>, key: Seq<char>) -> Option<Option<Seq<char>>>
    decreases props.len(),
{
    if props.len() == 0 {
        None
    } else if props[0].key == key {
        Some(props[0].value)
    } else {
        lookup(props.drop_first(), key)
    }
}

/// The string value of the first property with the key in any interface; none if
/// that one is no string.
pub open spec fn lookup_string(ifaces: Seq<Seq<PropData>>, key: Seq<char>) -> Option<Seq<char>>
    decreases ifaces.len(),
{
    if ifaces.len() == 0 {
        None
    } else {
        match lookup(ifaces[0], key) {
            Some(value) => value,
            None => lookup_string(ifaces.drop_first(), key),
        }
    }
}

fn find_prop<'a>(props: &'a Vec<Prop>, key: &str) -> (r: Option<&'a Prop>)
    ensures
        lookup(prop_views(props@), key@) == match r {
            Some(p) => Some(p@.value),
            None => None,
        },
{
    let mut i: usize = 0;
    let ghost all = prop_views(props@);
    proof {
        assert(all.skip(0) =~= all);
    }
    while i < props.len()
        invariant
            i <= props@.len(),
            all == prop_views(props@),
            lookup(all, key@) == lookup(all.skip(i as int), key@),
        decreases props@.len() - i,
    {
        proof {
            assert(all.skip(i as int)[0] == props@[i as int]@);
            assert(all.skip(i as int).drop_first() =~= all.skip(i + 1));
        }
        if same_str(props[i].key.as_str(), key) {
            return Some(&props[i]);
        }
        i = i + 1;
    }
    None
}

/// Find the string value of property `key` anywhere in the interfaces of an
/// object.
pub fn prop_string(ifaces: &Vec<Vec<Prop>>, key: &str) -> (r: Option<String>)
    ensures
        opt_view(r) == lookup_string(iface_views(ifaces@), key@),
{
    let mut i: usize = 0;
    let ghost all = iface_views(ifaces@);
    proof {
        assert(all.skip(0) =~= all);
    }
    while i < ifaces.len()
        invariant
            i <= ifaces@.len(),
            all == iface_views(ifaces@),
            lookup_string(all, key@) == lookup_string(all.skip(i as int), key@),
        decreases ifaces@.len() - i,
    {
        proof {
            assert(all.skip(i as int)[0] == prop_views(ifaces@[i as int]@));
            assert(all.skip(i as int).drop_first() =~= all.skip(i + 1));
        }
        match find_prop(&ifaces[i], key) {
            Some(p) => {
                return match &p.value {
                    Some(s) => Some(s.clone()),
                    None => None,
                };
            },
            None => {},
        }
        i = i + 1;
    }
    None
}

/// What stands behind the prefix in the first line that starts with it.
pub open spec fn behind(all: Seq<Seq<char>>, prefix: Seq<char>) -> Option<Seq<char>>
    decreases all.len(),
{
    if all.len() == 0 {
        None
    } else if starts(all[0], prefix) {
        Some(all[0].skip(prefix.len() as int))
    } else {
        behind(all.drop_first(), prefix)
    }
}

/// The value of a key in an INI text: what stands behind the key and an equals
/// sign in the first line that starts with them.
pub open spec fn ini_lookup(ini: Seq<char>, key: Seq<char>) -> Option<Seq<char>> {
    behind(lines(ini), key.push('='))
}

/// Value of `key=` from an INI string. Matches the bare key only, so localized
/// variants like `DisplayName[de]=` are ignored.
pub fn ini_value(ini: &str, key: &str) -> (r: Option<String>)
    ensures
        opt_view(r) == ini_lookup(ini@, key@),
{
    let chars = chars_of(ini);
    let rows = lines_of(chars.as_slice());
    let mut prefix = chars_of(key);
    prefix.push('=');
    let mut i: usize = 0;
    let ghost all = pieces(rows@);
    proof {
        assert(all.skip(0) =~= all);
    }
    while i < rows.len()
        invariant
            i <= rows@.len(),
            all == lines(ini@),
            all == pieces(rows@),
            prefix@ == key@.push('='),
            behind(all, key@.push('=')) == behind(all.skip(i as int), key@.push('=')),
        decreases rows@.len() - i,
    {
        proof {
            assert(all.skip(i as int)[0] == rows@[i as int]@);
            assert(all.skip(i as int).drop_first() =~= all.skip(i + 1));
        }
        match strip_prefix(rows[i].as_slice(), prefix.as_slice()) {
            Some(value) => {
                return Some(string_of(value));
            },
            None => {},
        }
        i = i + 1;
    }
    None
}

/// Whether an INI text has a group: one of its lines is the header, but for the
/// space around it.
pub open spec fn has_group(ini: Seq<char>, header: Seq<char>) -> bool {
    exists|i: int| 0 <= i < lines(ini).len() && trim(#[trigger] lines(ini)[i]) == header
}

/// Whether an INI text has a group with the given header.
fn group_in(ini: &str, header: &str) -> (r: bool)
    ensures
        r == has_group(ini@, header@),
{
    let chars = chars_of(ini);
    let rows = lines_of(chars.as_slice());
    let wanted = chars_of(header);
    let ghost all = pieces(rows@);
    let mut i: usize = 0;
    while i < rows.len()
        invariant
            i <= rows@.len(),
            all == lines(ini@),
            all == pieces(rows@),
            wanted@ == header@,
            forall|k: int| 0 <= k < i ==> trim(#[trigger] all[k]) != header@,
        decreases rows@.len() - i,
    {
        assert(all[i as int] == rows@[i as int]@);
        if same(trimmed(rows[i].as_slice()), wanted.as_slice()) {
            return true;
        }
        i = i + 1;
    }
    false
}

/// The calendar that a managed object describes: its `Data` has a `[Calendar]`
/// group, and it has a UID. Its name is the `DisplayName` of the data, or the
/// UID.
pub open spec fn source_of(ifaces: Seq<Seq<PropData>>) -> Option<SourceData> {
    match (lookup_string(ifaces, "Data"@), lookup_string(ifaces, "UID"@)) {
        (Some(data), Some(uid)) => if has_group(data, "[Calendar]"@) {
            Some(
                SourceData {
                    uid: uid,
                    name: match ini_lookup(data, "DisplayName"@) {
                        Some(name) => name,
                        None => uid,
                    },
                },
            )
        } else {
            None
        },
        _ => None,
    }
}

/// The calendars among the managed objects, in order.
pub open spec fn sources_of(objects: Seq<Seq<Seq<PropData>>>) -> Seq<SourceData>
    decreases objects.len(),
{
    if objects.len() == 0 {
        seq![]
    } else {
        match source_of(objects.last()) {
            Some(s) => sources_of(objects.drop_last()).push(s),
            None => sources_of(objects.drop_last()),
        }
    }
}

fn source_in(ifaces: &Vec<Vec<Prop>>) -> (r: Option<CalSource>)
    ensures
        source_of(iface_views(ifaces@)) == match r {
            Some(s) => Some(s@),
            None => None,
        },
{
    let data = match prop_string(ifaces, "Data") {
        Some(data) => data,
        None => {
            return None;
        },
    };
    if !group_in(data.as_str(), "[Calendar]") {
        return None;
    }
    let uid = match prop_string(ifaces, "UID") {
        Some(uid) => uid,
        None => {
            return None;
        },
    };
    let name = match ini_value(data.as_str(), "DisplayName") {
        Some(name) => name,
        None => uid.clone(),
    };
    Some(CalSource { uid: uid, name: name })
}

/// All calendar sources among the managed objects of the source registry. A
/// source is a calendar if its `Data` INI contains a `[Calendar]` group.
pub fn list_calendar_sources(objects: &Vec<Vec<Vec<Prop>>>) -> (r: Vec<CalSource>)
    ensures
        source_views(r@) == sources_of(object_views(objects@)),
{
    let mut out: Vec<CalSource> = Vec::new();
    let ghost all = object_views(objects@);
    let mut i: usize = 0;
    proof {
        assert(all.take(0) =~= Seq::<Seq<Seq<PropData>>>::empty());
        assert(source_views(out@) =~= sources_of(all.take(0)));
    }
    while i < objects.len()
        invariant
            i <= objects@.len(),
            all == object_views(objects@),
            source_views(out@) == sources_of(all.take(i as int)),
        decreases objects@.len() - i,
    {
        let ghost before = source_views(out@);
        proof {
            assert(all.take(i + 1).drop_last() =~= all.take(i as int));
            assert(all.take(i + 1).last() == iface_views(objects@[i as int]@));
        }
        match source_in(&objects[i]) {
            Some(s) => {
                out.push(s);
                assert(source_views(out@) =~= before.push(s@));
            },
            None => {},
        }
        i = i + 1;
    }
    assert(all.take(i as int) =~= all);
    out
}

// ---------------------------------------------------------------------------
// Choosing a calendar
// ---------------------------------------------------------------------------

/// Position of the first calendar that has the uid `name`, or whose lower-case
/// name contains `needle`.
pub open spec fn match_from(
    sources: Seq<SourceData>,
    lowered: Seq<Seq<char>>,
    name: Seq<char>,
    needle: Seq<char>,
    from: int,
) -> Option<int>
    decreases sources.len() - from,
{
    if from >= sources.len() {
        None
    } else if sources[from].uid == name || contains(lowered[from], needle) {
        Some(from)
    } else {
        match_from(sources, lowered, name, needle, from + 1)
    }
}

/// Position of the first calendar with the uid.
pub open spec fn uid_from(sources: Seq<SourceData>, uid: Seq<char>, from: int) -> Option<int>
    decreases sources.len() - from,
{
    if from >= sources.len() {
        None
    } else if sources[from].uid == uid {
        Some(from)
    } else {
        uid_from(sources, uid, from + 1)
    }
}

/// The names of the calendars in lower case.
pub open spec fn lowered_names(sources: Seq<SourceData>) -> Seq<Seq<char>> {
    Seq::new(sources.len(), |i: int| lowercased(sources[i].name))
}

/// The calendar to write to: by name or uid if one is named, else the default
/// calendar, else the first.
pub open spec fn target(
    sources: Seq<SourceData>,
    named: Option<Seq<char>>,
) -> Result<SourceData, Seq<char>> {
    match named {
        Some(name) => match match_from(
            sources,
            lowered_names(sources),
            name,
            lowercased(name),
            0,
        ) {
            Some(i) => Ok(sources[i]),
            None => Err("no calendar matching \""@ + name + "\""@),
        },
        None => match uid_from(sources, DEFAULT_CAL_UID@, 0) {
            Some(i) => Ok(sources[i]),
            None => if sources.len() > 0 {
                Ok(sources[0])
            } else {
                Err("no calendars available"@)
            },
        },
    }
}

/// Position of the first calendar that has the uid `name`, or whose name in lower
/// case, as `lowered` gives it, contains `needle`.
pub fn match_source(
    sources: &Vec<CalSource>,
    lowered: &Vec<String>,
    name: &str,
    needle: &str,
) -> (r: Option<usize>)
    requires
        sources@.len() == lowered@.len(),
    ensures
        match r {
            Some(i) => i < sources@.len() && match_from(
                source_views(sources@),
                views(lowered@),
                name@,
                needle@,
                0,
            ) == Some(i as int),
            None => match_from(source_views(sources@), views(lowered@), name@, needle@, 0) is None,
        },
{
    let mut i: usize = 0;
    let ghost all = source_views(sources@);
    let ghost low = views(lowered@);
    while i < sources.len()
        invariant
            i <= sources@.len(),
            sources@.len() == lowered@.len(),
            all == source_views(sources@),
            low == views(lowered@),
            match_from(all, low, name@, needle@, 0) == match_from(
                all,
                low,
                name@,
                needle@,
                i as int,
            ),
        decreases sources@.len() - i,
    {
        assert(all[i as int] == sources@[i as int]@);
        assert(low[i as int] == lowered@[i as int]@);
        if same_str(sources[i].uid.as_str(), name) || contains_str(lowered[i].as_str(), needle) {
            return Some(i);
        }
        i = i + 1;
    }
    None
}

fn lower_names(sources: &Vec<CalSource>) -> (r: Vec<String>)
    ensures
        views(r@) == lowered_names(source_views(sources@)),
{
    let mut out: Vec<String> = Vec::new();
    let mut i: usize = 0;
    while i < sources.len()
        invariant
            i <= sources@.len(),
            out@.len() == i,
            forall|j: int| 0 <= j < i ==> (#[trigger] out@[j])@ == lowercased(sources@[j].name@),
        decreases sources@.len() - i,
    {
        out.push(lowercase(sources[i].name.as_str()));
        i = i + 1;
    }
    assert(views(out@) =~= lowered_names(source_views(sources@)));
    out
}

fn find_uid(sources: &Vec<CalSource>, uid: &str) -> (r: Option<usize>)
    ensures
        match r {
            Some(i) => i < sources@.len() && uid_from(source_views(sources@), uid@, 0) == Some(
                i as int,
            ),
            None => uid_from(source_views(sources@), uid@, 0) is None,
        },
{
    let mut i: usize = 0;
    let ghost all = source_views(sources@);
    while i < sources.len()
        invariant
            i <= sources@.len(),
            all == source_views(sources@),
            uid_from(all, uid@, 0) == uid_from(all, uid@, i as int),
        decreases sources@.len() - i,
    {
        assert(all[i as int] == sources@[i as int]@);
        if same_str(sources[i].uid.as_str(), uid) {
            return Some(i);
        }
        i = i + 1;
    }
    None
}

/// A calendar or an error in views.
pub open spec fn source_result(
    r: Result<CalSource, String>,
) -> Result<SourceData, Seq<char>> {
    match r {
        Ok(s) => Ok(s@),
        Err(e) => Err(e@),
    }
}

/// Resolve the target calendar for a write: by its uid or a part of its name if the
/// model named one, else the default local calendar (falling back to the first).
pub fn resolve_target(sources: &Vec<CalSource>, named: Option<&str>) -> (r: Result<
    CalSource,
    String,
>)
    ensures
        source_result(r) == target(source_views(sources@), opt_str(named)),
{
    match named {
        Some(name) => {
            let needle = lowercase(name);
            let lowered = lower_names(sources);
            proof {
                assert(views(lowered@).len() == lowered@.len());
            }
            match match_source(sources, &lowered, name, needle.as_str()) {
                Some(i) => Ok(copy_source(&sources[i])),
                None => {
                    let mut e = "no calendar matching \"".to_owned();
                    e.append(name);
                    e.append("\"");
                    Err(e)
                },
            }
        },
        None => match find_uid(sources, DEFAULT_CAL_UID) {
            Some(i) => Ok(copy_source(&sources[i])),
            None => if sources.len() > 0 {
                Ok(copy_source(&sources[0]))
            } else {
                Err("no calendars available".to_owned())
            },
        },
    }
}

proof fn lemma_match(
    sources: Seq<SourceData>,
    lowered: Seq<Seq<char>>,
    name: Seq<char>,
    needle: Seq<char>,
    from: int,
)
    requires
        0 <= from <= sources.len(),
    ensures
        match match_from(sources, lowered, name, needle, from) {
            Some(i) => from <= i < sources.len() && (sources[i].uid == name || contains(
                lowered[i],
                needle,
            )),
            None => forall|j: int|
                from <= j < sources.len() ==> (#[trigger] sources[j]).uid != name && !contains(
                    lowered[j],
                    needle,
                ),
        },
    decreases sources.len() - from,
{
    if from < sources.len() && !(sources[from].uid == name || contains(lowered[from], needle)) {
        lemma_match(sources, lowered, name, needle, from + 1);
    }
}

proof fn lemma_uid(sources: Seq<SourceData>, uid: Seq<char>, from: int)
    requires
        0 <= from <= sources.len(),
    ensures
        match uid_from(sources, uid, from) {
            Some(i) => from <= i < sources.len() && sources[i].uid == uid,
            None => forall|j: int|
                from <= j < sources.len() ==> (#[trigger] sources[j]).uid != uid,
        },
    decreases sources.len() - from,
{
    if from < sources.len() && sources[from].uid != uid {
        lemma_uid(sources, uid, from + 1);
    }
}

/// The target is one of the calendars, and the one that was named, by its uid or
/// by a part of its name in any letter case. A calendar that is named by its uid
/// is found.
pub proof fn law_named_calendar_is_the_target(sources: Seq<SourceData>, name: Seq<char>)
    ensures
        target(sources, Some(name)) matches Ok(s) ==> sources.contains(s) && (s.uid == name
            || contains(lowercased(s.name), lowercased(name))),
        (exists|i: int| 0 <= i < sources.len() && (#[trigger] sources[i]).uid == name) ==> target(
            sources,
            Some(name),
        ) is Ok,
{
    lemma_match(sources, lowered_names(sources), name, lowercased(name), 0);
}

/// Where no calendar is named there is a target as long as there are calendars,
/// and it is the default one if that is among them.
pub proof fn law_default_calendar_is_the_target(sources: Seq<SourceData>)
    ensures
        sources.len() > 0 <==> target(sources, None) is Ok,
        target(sources, None) matches Ok(s) ==> sources.contains(s),
        (exists|i: int| 0 <= i < sources.len() && (#[trigger] sources[i]).uid == DEFAULT_CAL_UID@)
            ==> (target(sources, None) matches Ok(s) && s.uid == DEFAULT_CAL_UID@),
{
    lemma_uid(sources, DEFAULT_CAL_UID@, 0);
    if sources.len() > 0 {
        assert(sources.contains(sources[0]));
    }
}

// ---------------------------------------------------------------------------
// Searching for an event
// ---------------------------------------------------------------------------

/// What the search for an event does next.
pub enum Search {
    /// Ask the calendar at this position for the event.
    Try(usize),
    /// The calendar at this position holds it.
    Found(usize),
    /// No calendar holds it.
    Missing(String),
}

pub enum SearchData {
    Try(int),
    Found(int),
    Missing(Seq<char>),
}

impl View for Search {
    type V = SearchData;

    open spec fn view(&self) -> SearchData {
        match self {
            Search::Try(i) => SearchData::Try(*i as int),
            Search::Found(i) => SearchData::Found(*i as int),
            Search::Missing(e) => SearchData::Missing(e@),
        }
    }
}

/// What is said of an event that no calendar holds.
pub open spec fn missing_event(uid: Seq<char>) -> Seq<char> {
    "no event with uid \""@ + uid + "\" found in any calendar"@
}

/// The search goes on at a calendar, or fails behind the last one.
pub open spec fn search_at(count: nat, uid: Seq<char>, i: int) -> SearchData {
    if i < count {
        SearchData::Try(i)
    } else {
        SearchData::Missing(missing_event(uid))
    }
}

/// The calendar at `i` holds the event if it answered with a text that is not
/// empty; else the next one is asked.
pub open spec fn search_after(
    count: nat,
    uid: Seq<char>,
    i: int,
    ics: Option<Seq<char>>,
) -> SearchData {
    match ics {
        Some(text) => if text.len() > 0 {
            SearchData::Found(i)
        } else {
            search_at(count, uid, i + 1)
        },
        None => search_at(count, uid, i + 1),
    }
}

fn try_at(sources: &Vec<CalSource>, uid: &str, i: usize) -> (r: Search)
    ensures
        r@ == search_at(sources@.len(), uid@, i as int),
{
    if i < sources.len() {
        Search::Try(i)
    } else {
        let mut e = "no event with uid \"".to_owned();
        e.append(uid);
        e.append("\" found in any calendar");
        Search::Missing(e)
    }
}

/// Start the search for the event with the given uid.
pub fn find_event(sources: &Vec<CalSource>, uid: &str) -> (r: Search)
    ensures
        r@ == search_at(sources@.len(), uid@, 0),
{
    try_at(sources, uid, 0)
}

/// Go on with the search: `ics` is what the calendar at `i` answered, if it could
/// be opened and asked.
pub fn find_event_next(
    sources: &Vec<CalSource>,
    uid: &str,
    i: usize,
    ics: Option<&str>,
) -> (r: Search)
    requires
        i < sources@.len(),
    ensures
        r@ == search_after(sources@.len(), uid@, i as int, opt_str(ics)),
{
    assert(sources.len() == sources@.len());
    match ics {
        Some(text) => if chars_of(text).len() > 0 {
            Search::Found(i)
        } else {
            try_at(sources, uid, i + 1)
        },
        None => try_at(sources, uid, i + 1),
    }
}

/// The end of the search that asks the calendars from `i` on, given what each of
/// them answers.
pub open spec fn search_run(
    uid: Seq<char>,
    answers: Seq<Option<Seq<char>>>,
    i: int,
) -> SearchData
    decreases answers.len() - i,
{
    if i < 0 || i >= answers.len() {
        search_at(answers.len(), uid, i)
    } else {
        match search_after(answers.len(), uid, i, answers[i]) {
            SearchData::Try(j) => search_run(uid, answers, i + 1),
            done => done,
        }
    }
}

/// Whether a calendar answered with an event.
pub open spec fn holds(answer: Option<Seq<char>>) -> bool {
    answer matches Some(text) && text.len() > 0
}

/// The search ends at the first calendar that holds the event, and fails only if
/// none does.
pub proof fn law_search_finds_the_first(uid: Seq<char>, answers: Seq<Option<Seq<char>>>, i: int)
    requires
        0 <= i <= answers.len(),
    ensures
        match search_run(uid, answers, i) {
            SearchData::Found(n) => i <= n < answers.len() && holds(answers[n]) && forall|j: int|
                i <= j < n ==> !holds(#[trigger] answers[j]),
            SearchData::Missing(e) => e == missing_event(uid) && forall|j: int|
                i <= j < answers.len() ==> !holds(#[trigger] answers[j]),
            SearchData::Try(_) => false,
        },
    decreases answers.len() - i,
{
    if i < answers.len() && !holds(answers[i]) {
        law_search_finds_the_first(uid, answers, i + 1);
    }
}

} // verus!
