//! The descriptor-file parser: a line-oriented grammar of common attributes,
//! overrides and per-item attributes, and the baking of final items.
use vstd::prelude::*;

use crate::str_dict::{assoc_contains, assoc_insert, StrDict};
use crate::string_helpers::{combine_set_tokens, spec_combine_set_tokens};
use crate::text::{spec_split_once, spec_trim, split_once_char, str_eq, trim_str};

verus! {

/// A single baked or pending item: one attribute map.
pub struct Item {
    pub values: StrDict,
}

/// The value bound to `k`, or the empty string when `k` is unbound.
pub open spec fn spec_get_or_empty(m: Seq<(Seq<char>, Seq<char>)>, k: Seq<char>) -> Seq<char> {
    crate::str_dict::assoc_get_or_empty(m, k)
}

impl Item {
    pub open spec fn wf(&self) -> bool {
        self.values.wf()
    }

    pub fn new() -> (it: Item)
        ensures
            it.values@ =~= Seq::<(Seq<char>, Seq<char>)>::empty(),
            it.wf(),
    {
        Item { values: StrDict::new() }
    }

    pub fn has_value(&self, key: &str) -> (r: bool)
        requires
            self.wf(),
        ensures
            r == assoc_contains(self.values@, key@),
    {
        self.values.contains_key(key)
    }

    /// The value of `key`, or an empty string when the item does not have it.
    pub fn get_value(&self, key: &str) -> (r: String)
        requires
            self.wf(),
        ensures
            r@ == spec_get_or_empty(self.values@, key@),
    {
        match self.values.get(key) {
            Some(s) => s.clone(),
            None => String::new(),
        }
    }

    /// An equal copy of the item.
    pub fn duplicate(&self) -> (it: Item)
        requires
            self.wf(),
        ensures
            it.values@ == self.values@,
            it.wf(),
    {
        Item { values: self.values.duplicate() }
    }
}

/// One position of the authored order: either the item or the override with
/// the given index.
#[derive(Clone, Copy, PartialEq, Eq, Structural)]
pub enum TimelineEntry {
    ValueItem(usize),
    CommonOverride(usize),
}

/// The parse state of one descriptor file: the attribute maps gathered so
/// far and the pending item being collected.
pub struct ParseState {
    pub common: Seq<(Seq<char>, Seq<char>)>,
    pub overrides: Seq<Seq<(Seq<char>, Seq<char>)>>,
    pub items: Seq<Seq<(Seq<char>, Seq<char>)>>,
    pub timeline: Seq<TimelineEntry>,
    pub temp: Seq<(Seq<char>, Seq<char>)>,
    pub item_count: int,
    pub have_new_item: bool,
}

/// Move the pending item into the item list and record it on the timeline.
pub open spec fn spec_flush(st: ParseState) -> ParseState {
    ParseState {
        items: st.items.push(st.temp),
        timeline: st.timeline.push(TimelineEntry::ValueItem(st.items.len() as usize)),
        have_new_item: false,
        ..st
    }
}

/// How one line of a descriptor file changes the parse state: blank lines
/// and `#` comments are ignored, `*` starts a new item, a leading tab adds a
/// per-item attribute, and any other `key: value` line is a common attribute
/// before the first item and an override after it.
pub open spec fn spec_parse_line(st: ParseState, line: Seq<char>) -> ParseState {
    if line.len() == 0 || line[0] == '#' {
        st
    } else if line[0] == '*' {
        let st1 = if st.have_new_item {
            spec_flush(st)
        } else {
            st
        };
        ParseState {
            item_count: st.item_count + 1,
            temp: Seq::<(Seq<char>, Seq<char>)>::empty(),
            have_new_item: false,
            ..st1
        }
    } else if line[0] == '\t' {
        match spec_split_once(line.skip(1), ':') {
            Some(kv) => {
                let k = spec_trim(kv.0);
                if k.len() == 0 {
                    st
                } else {
                    ParseState {
                        temp: assoc_insert(st.temp, k, spec_trim(kv.1)),
                        have_new_item: true,
                        ..st
                    }
                }
            },
            None => st,
        }
    } else {
        match spec_split_once(line, ':') {
            Some(kv) => {
                let k = spec_trim(kv.0);
                if k.len() == 0 {
                    st
                } else if st.item_count == 0 {
                    ParseState { common: assoc_insert(st.common, k, spec_trim(kv.1)), ..st }
                } else {
                    let st1 = if st.have_new_item {
                        spec_flush(st)
                    } else {
                        st
                    };
                    ParseState {
                        overrides: st1.overrides.push(seq![(k, spec_trim(kv.1))]),
                        timeline: st1.timeline.push(
                            TimelineEntry::CommonOverride(st1.overrides.len() as usize),
                        ),
                        ..st1
                    }
                }
            },
            None => st,
        }
    }
}

pub open spec fn spec_parse_lines(st: ParseState, lines: Seq<Seq<char>>) -> ParseState
    decreases lines.len(),
{
    if lines.len() == 0 {
        st
    } else {
        spec_parse_lines(spec_parse_line(st, lines[0]), lines.drop_first())
    }
}

pub proof fn lemma_parse_lines_snoc(st: ParseState, lines: Seq<Seq<char>>, line: Seq<char>)
    ensures
        spec_parse_lines(st, lines.push(line)) == spec_parse_line(spec_parse_lines(st, lines), line),
    decreases lines.len(),
{
    let p = lines.push(line);
    if lines.len() == 0 {
        assert(p[0] == line);
        assert(p.drop_first() =~= lines);
        assert(spec_parse_lines(st, p) == spec_parse_lines(
            spec_parse_line(st, line),
            p.drop_first(),
        ));
        assert(spec_parse_lines(spec_parse_line(st, line), lines) == spec_parse_line(st, line));
    } else {
        assert(p[0] == lines[0]);
        assert(p.drop_first() =~= lines.drop_first().push(line));
        assert(spec_parse_lines(st, p) == spec_parse_lines(
            spec_parse_line(st, lines[0]),
            p.drop_first(),
        ));
        lemma_parse_lines_snoc(spec_parse_line(st, lines[0]), lines.drop_first(), line);
        assert(spec_parse_lines(st, lines) == spec_parse_lines(
            spec_parse_line(st, lines[0]),
            lines.drop_first(),
        ));
    }
}

/// After the last line, a still-pending item is flushed.
pub open spec fn spec_finish(st: ParseState) -> ParseState {
    if st.have_new_item {
        spec_flush(st)
    } else {
        st
    }
}

pub open spec fn dict_views(s: Seq<StrDict>) -> Seq<Seq<(Seq<char>, Seq<char>)>> {
    Seq::new(s.len(), |i: int| s[i]@)
}

pub open spec fn item_views(s: Seq<Item>) -> Seq<Seq<(Seq<char>, Seq<char>)>> {
    Seq::new(s.len(), |i: int| s[i].values@)
}

pub open spec fn str_views(s: Seq<String>) -> Seq<Seq<char>> {
    Seq::new(s.len(), |i: int| s[i]@)
}

/// One descriptor file: common attributes, overrides, items, and the
/// timeline that interleaves them in authored order.
pub struct ItemFile {
    pub common_values: StrDict,
    pub overrides: Vec<StrDict>,
    pub value_items: Vec<Item>,
    pub item_indices: Vec<TimelineEntry>,
}

impl ItemFile {
    pub open spec fn wf(&self) -> bool {
        &&& self.common_values.wf()
        &&& forall|i: int| 0 <= i < self.overrides@.len() ==> (#[trigger] self.overrides@[i]).wf()
        &&& forall|i: int| 0 <= i < self.value_items@.len() ==> (#[trigger] self.value_items@[i]).wf()
        &&& forall|i: int|
            0 <= i < self.item_indices@.len() ==> match #[trigger] self.item_indices@[i] {
                TimelineEntry::ValueItem(x) => x < self.value_items@.len(),
                TimelineEntry::CommonOverride(x) => x < self.overrides@.len(),
            }
    }

    /// The parse state this file stands for, with no pending item.
    pub open spec fn state(&self) -> ParseState {
        ParseState {
            common: self.common_values@,
            overrides: dict_views(self.overrides@),
            items: item_views(self.value_items@),
            timeline: self.item_indices@,
            temp: Seq::<(Seq<char>, Seq<char>)>::empty(),
            item_count: 0,
            have_new_item: false,
        }
    }

    pub fn new() -> (f: ItemFile)
        ensures
            f.wf(),
            f.common_values@ =~= Seq::<(Seq<char>, Seq<char>)>::empty(),
            f.overrides@.len() == 0,
            f.value_items@.len() == 0,
            f.item_indices@.len() == 0,
    {
        ItemFile {
            common_values: StrDict::new(),
            overrides: Vec::new(),
            value_items: Vec::new(),
            item_indices: Vec::new(),
        }
    }

    fn flush_item(&mut self, temp_item: &Item)
        requires
            old(self).wf(),
            temp_item.wf(),
        ensures
            final(self).wf(),
            final(self).common_values@ == old(self).common_values@,
            dict_views(final(self).overrides@) == dict_views(old(self).overrides@),
            item_views(final(self).value_items@) =~= item_views(old(self).value_items@).push(
                temp_item.values@,
            ),
            final(self).item_indices@ =~= old(self).item_indices@.push(
                TimelineEntry::ValueItem(old(self).value_items@.len() as usize),
            ),
    {
        let item_index = self.value_items.len();
        self.value_items.push(temp_item.duplicate());
        self.item_indices.push(TimelineEntry::ValueItem(item_index));
        proof {
            assert(dict_views(self.overrides@) =~= dict_views(old(self).overrides@));
        }
    }

    /// Parse the lines of one descriptor file into this file's maps.
    pub fn load_from_lines(&mut self, lines: &Vec<String>)
        requires
            old(self).wf(),
        ensures
            final(self).wf(),
            ({
                let stf = spec_finish(spec_parse_lines(old(self).state(), str_views(lines@)));
                &&& final(self).common_values@ == stf.common
                &&& dict_views(final(self).overrides@) == stf.overrides
                &&& item_views(final(self).value_items@) == stf.items
                &&& final(self).item_indices@ == stf.timeline
            }),
    {
        let ghost st0 = old(self).state();
        let ghost lv = str_views(lines@);
        let mut temp_item = Item::new();
        let mut item_count: usize = 0;
        let mut have_new_item = false;
        let n = lines.len();
        let mut li: usize = 0;
        while li < n
            invariant
                0 <= li <= n,
                n == lines@.len(),
                lv == str_views(lines@),
                self.wf(),
                temp_item.wf(),
                ({
                    let st = spec_parse_lines(st0, lv.take(li as int));
                    &&& self.common_values@ == st.common
                    &&& dict_views(self.overrides@) == st.overrides
                    &&& item_views(self.value_items@) == st.items
                    &&& self.item_indices@ == st.timeline
                    &&& temp_item.values@ == st.temp
                    &&& item_count as int == st.item_count
                    &&& have_new_item == st.have_new_item
                    &&& st.item_count <= li
                }),
            decreases n - li,
        {
            let ghost st = spec_parse_lines(st0, lv.take(li as int));
            proof {
                assert(lv.take(li + 1) =~= lv.take(li as int).push(lv[li as int]));
                lemma_parse_lines_snoc(st0, lv.take(li as int), lv[li as int]);
                assert(lv[li as int] == lines@[li as int]@);
            }
            let ghost stn = spec_parse_line(st, lv[li as int]);
            let line = &lines[li];
            let lraw = line.as_str();
            let ln = lraw.unicode_len();
            if ln == 0 || lraw.get_char(0) == '#' {
                // comment or blank: ignored
            } else if lraw.get_char(0) == '*' {
                item_count = item_count + 1;
                if have_new_item {
                    self.flush_item(&temp_item);
                    have_new_item = false;
                }
                temp_item = Item::new();
                proof {
                    assert(temp_item.values@ =~= stn.temp);
                }
            } else if lraw.get_char(0) == '\t' {
                let rest = lraw.substring_char(1, ln);
                proof {
                    assert(rest@ =~= lv[li as int].skip(1));
                }
                match split_once_char(rest, ':') {
                    Some(kv) => {
                        let k = trim_str(kv.0.as_str());
                        if k.as_str().unicode_len() > 0 {
                            let v = trim_str(kv.1.as_str());
                            temp_item.values.insert(k, v);
                            have_new_item = true;
                        }
                    },
                    None => {},
                }
            } else {
                match split_once_char(lraw, ':') {
                    Some(kv) => {
                        let k = trim_str(kv.0.as_str());
                        if k.as_str().unicode_len() > 0 {
                            let v = trim_str(kv.1.as_str());
                            if item_count == 0 {
                                self.common_values.insert(k, v);
                            } else {
                                if have_new_item {
                                    self.flush_item(&temp_item);
                                    have_new_item = false;
                                }
                                let mut ov = StrDict::new();
                                ov.insert(k, v);
                                let override_index = self.overrides.len();
                                self.overrides.push(ov);
                                self.item_indices.push(
                                    TimelineEntry::CommonOverride(override_index),
                                );
                                proof {
                                    assert(dict_views(self.overrides@) =~= stn.overrides);
                                }
                            }
                        }
                    },
                    None => {},
                }
            }
            li = li + 1;
            proof {
                assert(lv.take(li as int) =~= lv.take((li - 1) as int).push(lv[li - 1]));
                assert(self.common_values@ == stn.common);
                assert(dict_views(self.overrides@) =~= stn.overrides);
                assert(item_views(self.value_items@) =~= stn.items);
                assert(self.item_indices@ =~= stn.timeline);
                assert(temp_item.values@ == stn.temp);
            }
        }
        proof {
            assert(lv.take(n as int) =~= lv);
        }
        if have_new_item {
            self.flush_item(&temp_item);
        }
        proof {
            let stf = spec_finish(spec_parse_lines(st0, lv));
            assert(self.common_values@ == stf.common);
            assert(dict_views(self.overrides@) =~= stf.overrides);
            assert(item_views(self.value_items@) =~= stf.items);
            assert(self.item_indices@ =~= stf.timeline);
        }
    }
}

// ---------------------------------------------------------------------------
// Baking
// ---------------------------------------------------------------------------
/// The set-valued keys, whose values are combined instead of replaced.
pub open spec fn is_set_key(k: Seq<char>) -> bool {
    k == "tags"@ || k == "geoLocationTags"@
}

fn is_set_key_exec(k: &str) -> (r: bool)
    ensures
        r == is_set_key(k@),
{
    str_eq(k, "tags") || str_eq(k, "geoLocationTags")
}

/// One per-item attribute layered on top of the accumulated map: set-valued
/// keys combine with the existing value, all others replace it.
pub open spec fn spec_apply_item_entry(
    acc: Seq<(Seq<char>, Seq<char>)>,
    k: Seq<char>,
    v: Seq<char>,
) -> Seq<(Seq<char>, Seq<char>)> {
    if is_set_key(k) {
        assoc_insert(acc, k, spec_combine_set_tokens(spec_get_or_empty(acc, k), v))
    } else {
        assoc_insert(acc, k, v)
    }
}

/// A whole item layered on top of the common map, entry by entry.
pub open spec fn spec_bake_item(
    acc: Seq<(Seq<char>, Seq<char>)>,
    item: Seq<(Seq<char>, Seq<char>)>,
) -> Seq<(Seq<char>, Seq<char>)>
    decreases item.len(),
{
    if item.len() == 0 {
        acc
    } else {
        spec_bake_item(spec_apply_item_entry(acc, item[0].0, item[0].1), item.drop_first())
    }
}

/// An override merged into the common map: every entry replaces.
pub open spec fn spec_merge_override(
    acc: Seq<(Seq<char>, Seq<char>)>,
    ov: Seq<(Seq<char>, Seq<char>)>,
) -> Seq<(Seq<char>, Seq<char>)>
    decreases ov.len(),
{
    if ov.len() == 0 {
        acc
    } else {
        spec_merge_override(assoc_insert(acc, ov[0].0, ov[0].1), ov.drop_first())
    }
}

/// The baked items of a file: replay the timeline, folding overrides into a
/// running copy of the common map and producing one baked map per item.
pub open spec fn spec_baked_items(
    local_common: Seq<(Seq<char>, Seq<char>)>,
    overrides: Seq<Seq<(Seq<char>, Seq<char>)>>,
    items: Seq<Seq<(Seq<char>, Seq<char>)>>,
    timeline: Seq<TimelineEntry>,
) -> Seq<Seq<(Seq<char>, Seq<char>)>>
    decreases timeline.len(),
{
    if timeline.len() == 0 {
        Seq::<Seq<(Seq<char>, Seq<char>)>>::empty()
    } else {
        match timeline[0] {
            TimelineEntry::CommonOverride(j) => spec_baked_items(
                spec_merge_override(local_common, overrides[j as int]),
                overrides,
                items,
                timeline.drop_first(),
            ),
            TimelineEntry::ValueItem(i) => seq![spec_bake_item(local_common, items[i as int])]
                + spec_baked_items(local_common, overrides, items, timeline.drop_first()),
        }
    }
}

/// The baked items that `f` yields.
pub open spec fn spec_final_baked(f: &ItemFile) -> Seq<Seq<(Seq<char>, Seq<char>)>> {
    spec_baked_items(
        f.common_values@,
        dict_views(f.overrides@),
        item_views(f.value_items@),
        f.item_indices@,
    )
}

fn merge_override_into(acc: &mut StrDict, ov: &StrDict)
    requires
        old(acc).wf(),
        ov.wf(),
    ensures
        final(acc).wf(),
        final(acc)@ == spec_merge_override(old(acc)@, ov@),
{
    let ghost acc0 = acc@;
    let n = ov.len();
    let mut i: usize = 0;
    proof {
        assert(ov@.skip(0) =~= ov@);
    }
    while i < n
        invariant
            0 <= i <= n,
            n == ov@.len(),
            ov.wf(),
            acc.wf(),
            spec_merge_override(acc0, ov@) == spec_merge_override(acc@, ov@.skip(i as int)),
        decreases n - i,
    {
        proof {
            assert(ov@.skip(i as int)[0] == ov@[i as int]);
            assert(ov@.skip(i as int).drop_first() =~= ov@.skip(i + 1));
        }
        let k = ov.key_at(i).clone();
        let v = ov.val_at(i).clone();
        acc.insert(k, v);
        i = i + 1;
    }
}

fn bake_item_from(common: &StrDict, item: &StrDict) -> (r: StrDict)
    requires
        common.wf(),
        item.wf(),
    ensures
        r.wf(),
        r@ == spec_bake_item(common@, item@),
{
    let mut acc = common.duplicate();
    let ghost acc0 = acc@;
    let n = item.len();
    let mut i: usize = 0;
    proof {
        assert(item@.skip(0) =~= item@);
    }
    while i < n
        invariant
            0 <= i <= n,
            n == item@.len(),
            item.wf(),
            acc.wf(),
            spec_bake_item(acc0, item@) == spec_bake_item(acc@, item@.skip(i as int)),
        decreases n - i,
    {
        proof {
            assert(item@.skip(i as int)[0] == item@[i as int]);
            assert(item@.skip(i as int).drop_first() =~= item@.skip(i + 1));
        }
        let k = item.key_at(i).clone();
        let v = item.val_at(i).clone();
        if is_set_key_exec(k.as_str()) {
            let existing = match acc.get(k.as_str()) {
                Some(s) => s.clone(),
                None => String::new(),
            };
            let combined = combine_set_tokens(existing.as_str(), v.as_str());
            acc.insert(k, combined);
        } else {
            acc.insert(k, v);
        }
        i = i + 1;
    }
    acc
}

/// Baking is deterministic: replaying a file's timeline twice yields the
/// same item sequence both times, since baking reads the file and changes
/// nothing.
pub proof fn lemma_baking_deterministic(
    f: &ItemFile,
    r1: Seq<Seq<(Seq<char>, Seq<char>)>>,
    r2: Seq<Seq<(Seq<char>, Seq<char>)>>,
)
    requires
        r1 == spec_final_baked(f),
        r2 == spec_final_baked(f),
    ensures
        r1 == r2,
{
}

impl ItemFile {
    /// Replay the timeline and return the baked items, in authored order.
    pub fn get_final_baked_items(&self) -> (r: Vec<Item>)
        requires
            self.wf(),
        ensures
            item_views(r@) == spec_final_baked(self),
            forall|i: int| 0 <= i < r@.len() ==> (#[trigger] r@[i]).wf(),
    {
        let ghost ovs = dict_views(self.overrides@);
        let ghost its = item_views(self.value_items@);
        let ghost tl = self.item_indices@;
        let mut final_items: Vec<Item> = Vec::new();
        let mut local_common = self.common_values.duplicate();
        let n = self.item_indices.len();
        let mut t: usize = 0;
        proof {
            assert(tl.skip(0) =~= tl);
        }
        while t < n
            invariant
                0 <= t <= n,
                n == tl.len(),
                tl == self.item_indices@,
                ovs == dict_views(self.overrides@),
                its == item_views(self.value_items@),
                self.wf(),
                local_common.wf(),
                forall|i: int| 0 <= i < final_items@.len() ==> (#[trigger] final_items@[i]).wf(),
                spec_final_baked(self) == item_views(final_items@) + spec_baked_items(
                    local_common@,
                    ovs,
                    its,
                    tl.skip(t as int),
                ),
            decreases n - t,
        {
            proof {
                assert(tl.skip(t as int)[0] == tl[t as int]);
                assert(tl.skip(t as int).drop_first() =~= tl.skip(t + 1));
            }
            let entry = self.item_indices[t];
            match entry {
                TimelineEntry::CommonOverride(j) => {
                    proof {
                        assert(ovs[j as int] == self.overrides@[j as int]@);
                    }
                    merge_override_into(&mut local_common, &self.overrides[j]);
                },
                TimelineEntry::ValueItem(i) => {
                    proof {
                        assert(its[i as int] == self.value_items@[i as int].values@);
                    }
                    let baked = bake_item_from(&local_common, &self.value_items[i].values);
                    final_items.push(Item { values: baked });
                    proof {
                        assert(item_views(final_items@) =~= item_views(
                            final_items@.take(final_items@.len() - 1),
                        ).push(final_items@.last().values@));
                        assert(item_views(final_items@.take(final_items@.len() - 1)) =~= item_views(
                            final_items@,
                        ).drop_last());
                    }
                },
            }
            proof {
                assert(item_views(final_items@) + spec_baked_items(
                    local_common@,
                    ovs,
                    its,
                    tl.skip(t + 1),
                ) =~= spec_final_baked(self));
            }
            t = t + 1;
        }
        proof {
            assert(tl.skip(n as int) =~= Seq::<TimelineEntry>::empty());
            assert(item_views(final_items@) =~= spec_final_baked(self));
        }
        final_items
    }
}

} // verus!
