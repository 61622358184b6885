//! Game controller configurations: looking a controller up in the game
//! controller database, parsing its SDL mapping, and the table of the
//! configured controllers, keyed by their index.
use crate::text::{
    chars_eq, chars_of, find_seq, is_ws, join_with, occurs_at, opt_view, pair_views, push_chars, push_char,
    sep_pred, split_on, split_pieces, string_of, views,
};
use std::collections::HashMap;
use vstd::prelude::*;

verus! {

broadcast use vstd::std_specs::hash::group_hash_axioms;

/// The most controllers that can be configured at once.
pub const MAX_CONTROLLERS: usize = 8;

/// A controller: its GUID, its name and its input mappings.
#[derive(Debug)]
pub struct Controller {
    /// The GUID of the controller.
    pub guid: String,
    /// The name of the controller.
    pub name: String,
    /// The input mappings, as (input, binding) pairs with distinct inputs.
    pub inputs: Vec<(String, String)>,
}

/// A controller as plain values.
pub struct ControllerView {
    pub guid: Seq<char>,
    pub name: Seq<char>,
    pub inputs: Seq<(Seq<char>, Seq<char>)>,
}

impl View for Controller {
    type V = ControllerView;

    open spec fn view(&self) -> ControllerView {
        ControllerView { guid: self.guid@, name: self.name@, inputs: pair_views(self.inputs@) }
    }
}

/// A copy of a controller with the same plain values.
pub fn clone_controller(c: &Controller) -> (r: Controller)
    ensures
        r@ == c@,
{
    let mut inputs: Vec<(String, String)> = Vec::new();
    let mut i: usize = 0;
    while i < c.inputs.len()
        invariant
            0 <= i <= c.inputs.len(),
            pair_views(inputs@) == pair_views(c.inputs@).take(i as int),
        decreases c.inputs.len() - i,
    {
        let k = c.inputs[i].0.clone();
        let v = c.inputs[i].1.clone();
        let ghost before = inputs@;
        inputs.push((k, v));
        proof {
            assert(pair_views(c.inputs@)[i as int] == (c.inputs@[i as int].0@, c.inputs@[i as int].1@));
            assert(pair_views(inputs@) =~= pair_views(before).push((k@, v@)));
            assert(pair_views(c.inputs@).take(i + 1) =~= pair_views(c.inputs@).take(i as int).push((k@, v@)));
            assert(pair_views(inputs@) =~= pair_views(c.inputs@).take(i + 1));
        }
        i = i + 1;
    }
    proof {
        assert(pair_views(c.inputs@).take(c.inputs.len() as int) =~= pair_views(c.inputs@));
    }
    Controller { guid: c.guid.clone(), name: c.name.clone(), inputs }
}

// ---------------------------------------------------------------------------
// The game controller database
// ---------------------------------------------------------------------------

/// The pieces of `s` between commas.
pub open spec fn comma_split(s: Seq<char>) -> Seq<Seq<char>> {
    split_on(s, sep_pred(seq![','], false))
}

/// A database line that holds nothing: blank once trimmed, or a comment.
pub open spec fn is_skipped_line(line: Seq<char>) -> bool {
    (forall|i: int| 0 <= i < line.len() ==> is_ws(#[trigger] line[i])) || (line.len() > 0
        && line[0] == '#')
}

/// The mapping that a database line gives for `guid`, if it is an entry for
/// it: a line `GUID,name,mappings...` of at least three fields whose first
/// field is the GUID; the mapping is everything after the GUID.
pub open spec fn line_entry(line: Seq<char>, guid: Seq<char>) -> Option<Seq<char>> {
    let parts = comma_split(line);
    if is_skipped_line(line) {
        None
    } else if parts.len() >= 3 && parts[0] == guid {
        Some(join_with(parts.drop_first(), ','))
    } else {
        None
    }
}

/// The mapping of the first line of `lines` that is an entry for `guid`.
pub open spec fn db_lookup(lines: Seq<Seq<char>>, guid: Seq<char>) -> Option<Seq<char>>
    decreases lines.len(),
{
    if lines.len() == 0 {
        None
    } else {
        match line_entry(lines[0], guid) {
            Some(m) => Some(m),
            None => db_lookup(lines.drop_first(), guid),
        }
    }
}

fn is_blank(line: &Vec<char>) -> (r: bool)
    ensures
        r == forall|i: int| 0 <= i < line@.len() ==> is_ws(#[trigger] line@[i]),
{
    let mut i: usize = 0;
    while i < line.len()
        invariant
            0 <= i <= line.len(),
            forall|k: int| 0 <= k < i ==> is_ws(#[trigger] line@[k]),
        decreases line.len() - i,
    {
        if !crate::text::is_whitespace(line[i]) {
            return false;
        }
        i = i + 1;
    }
    true
}

fn join_pieces(ps: &Vec<Vec<char>>, from: usize, sep: char) -> (s: Vec<char>)
    requires
        from < ps.len(),
    ensures
        s@ == join_with(views(ps@).skip(from as int), sep),
{
    let ghost all = views(ps@).skip(from as int);
    let mut s: Vec<char> = Vec::new();
    let mut i: usize = from;
    proof {
        assert(all.take(0) =~= Seq::<Seq<char>>::empty());
    }
    while i < ps.len()
        invariant
            from <= i <= ps.len(),
            from < ps.len(),
            all == views(ps@).skip(from as int),
            s@ == join_with(all.take(i - from), sep),
        decreases ps.len() - i,
    {
        proof {
            assert(all.take(i - from + 1).drop_last() =~= all.take(i - from));
            assert(all.take(i - from + 1).last() == ps@[i as int]@);
        }
        if i > from {
            s.push(sep);
        }
        let mut k: usize = 0;
        let ghost start = s@;
        while k < ps[i].len()
            invariant
                0 <= k <= ps@[i as int].len(),
                i < ps.len(),
                s@ == start + ps@[i as int]@.take(k as int),
            decreases ps@[i as int].len() - k,
        {
            proof {
                assert(ps@[i as int]@.take(k + 1) =~= ps@[i as int]@.take(k as int).push(
                    ps@[i as int]@[k as int],
                ));
            }
            s.push(ps[i][k]);
            k = k + 1;
        }
        proof {
            assert(ps@[i as int]@.take(k as int) =~= ps@[i as int]@);
            if i == from {
                assert(all.take(1) =~= seq![ps@[i as int]@]);
                assert(s@ =~= ps@[i as int]@);
            }
        }
        i = i + 1;
    }
    proof {
        assert(all.take(i - from) =~= all);
    }
    s
}

/// The mapping that one database line gives for `guid`, if any.
pub fn line_mapping(line: &str, guid: &str) -> (r: Option<String>)
    ensures
        match line_entry(line@, guid@) {
            Some(m) => r matches Some(s) && s@ == m,
            None => r is None,
        },
{
    let v = chars_of(line);
    if is_blank(&v) || (v.len() > 0 && v[0] == '#') {
        return None;
    }
    let mut seps: Vec<char> = Vec::new();
    seps.push(',');
    proof {
        assert(seps@ =~= seq![',']);
    }
    let parts = split_pieces(&v, &seps, false);
    if parts.len() < 3 {
        return None;
    }
    let g = chars_of(guid);
    if !chars_eq(&parts[0], &g) {
        return None;
    }
    let joined = join_pieces(&parts, 1, ',');
    proof {
        assert(views(parts@).skip(1) =~= views(parts@).drop_first());
    }
    Some(string_of(&joined))
}

/// Finds the mapping of a controller in the lines of a game controller
/// database: the part after the GUID of the first entry for `guid_to_find`.
pub fn find_in_gamecontroller_db(lines: &Vec<String>, guid_to_find: &str) -> (r: Option<String>)
    ensures
        match db_lookup(lines@.map_values(|l: String| l@), guid_to_find@) {
            Some(m) => r matches Some(s) && s@ == m,
            None => r is None,
        },
{
    let ghost ls = lines@.map_values(|l: String| l@);
    let mut i: usize = 0;
    proof {
        assert(ls.skip(0) =~= ls);
    }
    while i < lines.len()
        invariant
            0 <= i <= lines.len(),
            ls == lines@.map_values(|l: String| l@),
            db_lookup(ls, guid_to_find@) == db_lookup(ls.skip(i as int), guid_to_find@),
        decreases lines.len() - i,
    {
        proof {
            assert(ls.skip(i as int).drop_first() =~= ls.skip(i + 1));
            assert(ls.skip(i as int)[0] == lines@[i as int]@);
        }
        let found = line_mapping(lines[i].as_str(), guid_to_find);
        if found.is_some() {
            return found;
        }
        i = i + 1;
    }
    proof {
        assert(ls.skip(i as int) =~= Seq::<Seq<char>>::empty());
    }
    None
}

// ---------------------------------------------------------------------------
// SDL mappings
// ---------------------------------------------------------------------------

/// `m` after setting `k` to `v`: the binding of an input already present is
/// replaced in place, a new input is added at the end (`HashMap::insert`).
pub open spec fn assoc_insert(
    m: Seq<(Seq<char>, Seq<char>)>,
    k: Seq<char>,
    v: Seq<char>,
) -> Seq<(Seq<char>, Seq<char>)> {
    if exists|i: int| 0 <= i < m.len() && (#[trigger] m[i]).0 == k {
        let i = choose|i: int| 0 <= i < m.len() && (#[trigger] m[i]).0 == k;
        m.update(i, (k, v))
    } else {
        m.push((k, v))
    }
}

/// No input occurs twice.
pub open spec fn distinct_keys(m: Seq<(Seq<char>, Seq<char>)>) -> bool {
    forall|i: int, j: int| 0 <= i < j < m.len() ==> (#[trigger] m[i]).0 != (#[trigger] m[j]).0
}

/// The position of the first `:` in `p`, if any.
pub open spec fn first_colon(p: Seq<char>) -> Option<int> {
    if exists|i: int| occurs_at(p, seq![':'], i) {
        Some(choose|i: int| occurs_at(p, seq![':'], i) && forall|j: int| 0 <= j < i ==> !occurs_at(p, seq![':'], j))
    } else {
        None
    }
}

/// The input mappings of the fields `name:binding` of `parts`, in order; a
/// field without `:` is ignored and a later binding of an input wins.
pub open spec fn parse_inputs(parts: Seq<Seq<char>>) -> Seq<(Seq<char>, Seq<char>)>
    decreases parts.len(),
{
    if parts.len() == 0 {
        Seq::empty()
    } else {
        let m = parse_inputs(parts.drop_last());
        let p = parts.last();
        match first_colon(p) {
            Some(pos) => assoc_insert(m, p.take(pos), p.skip(pos + 1)),
            None => m,
        }
    }
}

/// The name and input mappings of SDL mapping data "Name,a:b0,b:b1,...".
pub open spec fn parse_mapping(data: Seq<char>) -> (Seq<char>, Seq<(Seq<char>, Seq<char>)>) {
    let parts = comma_split(data);
    (parts[0], parse_inputs(parts.drop_first()))
}

proof fn lemma_assoc_insert_distinct(m: Seq<(Seq<char>, Seq<char>)>, k: Seq<char>, v: Seq<char>)
    requires
        distinct_keys(m),
    ensures
        distinct_keys(assoc_insert(m, k, v)),
{
}

proof fn lemma_parse_inputs_distinct(parts: Seq<Seq<char>>)
    ensures
        distinct_keys(parse_inputs(parts)),
    decreases parts.len(),
{
    if parts.len() > 0 {
        lemma_parse_inputs_distinct(parts.drop_last());
        let m = parse_inputs(parts.drop_last());
        let p = parts.last();
        if let Some(pos) = first_colon(p) {
            lemma_assoc_insert_distinct(m, p.take(pos), p.skip(pos + 1));
        }
    }
}

fn insert_input(m: &mut Vec<(String, String)>, k: String, v: String)
    requires
        distinct_keys(pair_views(old(m)@)),
    ensures
        pair_views(final(m)@) == assoc_insert(pair_views(old(m)@), k@, v@),
        distinct_keys(pair_views(final(m)@)),
{
    let ghost mv = pair_views(m@);
    let kc = chars_of(k.as_str());
    let mut i: usize = 0;
    while i < m.len()
        invariant
            0 <= i <= m.len(),
            mv == pair_views(m@),
            m@ == old(m)@,
            kc@ == k@,
            distinct_keys(mv),
            forall|j: int| 0 <= j < i ==> (#[trigger] mv[j]).0 != k@,
        decreases m.len() - i,
    {
        let ki = chars_of(m[i].0.as_str());
        if chars_eq(&ki, &kc) {
            proof {
                assert(mv[i as int].0 == k@);
                let c = choose|j: int| 0 <= j < mv.len() && (#[trigger] mv[j]).0 == k@;
                assert(c == i);
            }
            m.set(i, (k, v));
            proof {
                assert(pair_views(m@) =~= mv.update(i as int, (k@, v@)));
                lemma_assoc_insert_distinct(mv, k@, v@);
            }
            return;
        }
        i = i + 1;
    }
    m.push((k, v));
    proof {
        assert(pair_views(m@) =~= mv.push((k@, v@)));
        lemma_assoc_insert_distinct(mv, k@, v@);
    }
}

/// Splits SDL mapping data "ControllerName,a:b0,b:b1,..." into the
/// controller name and its input mappings.
pub fn parse_controller_mapping_data(mapping_data: &str) -> (r: (String, Vec<(String, String)>))
    ensures
        r.0@ == parse_mapping(mapping_data@).0,
        pair_views(r.1@) == parse_mapping(mapping_data@).1,
        distinct_keys(pair_views(r.1@)),
{
    let v = chars_of(mapping_data);
    let mut seps: Vec<char> = Vec::new();
    seps.push(',');
    proof {
        assert(seps@ =~= seq![',']);
        crate::text::lemma_split_on_len(v@, sep_pred(seq![','], false));
    }
    let parts = split_pieces(&v, &seps, false);
    let ghost ps = views(parts@);
    let name = string_of(&parts[0]);
    let mut inputs: Vec<(String, String)> = Vec::new();
    let mut colon: Vec<char> = Vec::new();
    colon.push(':');
    proof {
        assert(colon@ =~= seq![':']);
    }
    let mut i: usize = 1;
    proof {
        assert(ps.drop_first().take(0) =~= Seq::<Seq<char>>::empty());
    }
    while i < parts.len()
        invariant
            1 <= i <= parts.len(),
            ps == views(parts@),
            colon@ == seq![':'],
            pair_views(inputs@) == parse_inputs(ps.drop_first().take(i - 1)),
            distinct_keys(pair_views(inputs@)),
        decreases parts.len() - i,
    {
        let ghost rest = ps.drop_first();
        proof {
            assert(rest.take(i as int).drop_last() =~= rest.take(i - 1));
            assert(rest.take(i as int).last() == parts@[i as int]@);
        }
        let p = &parts[i];
        match find_seq(p, &colon) {
            Some(pos) => {
                proof {
                    assert(exists|j: int| occurs_at(p@, seq![':'], j));
                    let c = choose|j: int|
                        occurs_at(p@, seq![':'], j) && forall|k: int|
                            0 <= k < j ==> !occurs_at(p@, seq![':'], k);
                    if c < pos {
                    } else if c > pos {
                    }
                    assert(c == pos);
                }
                let mut key: Vec<char> = Vec::new();
                let mut val: Vec<char> = Vec::new();
                let mut j: usize = 0;
                while j < p.len()
                    invariant
                        0 <= j <= p.len(),
                        pos < p.len(),
                        key@ == p@.take(pos as int).take(if j < pos { j as int } else { pos as int }),
                        j <= pos + 1 ==> val@ == Seq::<char>::empty(),
                        j > pos + 1 ==> val@ == p@.skip(pos + 1).take(j - pos - 1),
                    decreases p.len() - j,
                {
                    if j < pos {
                        proof {
                            assert(p@.take(pos as int).take(j + 1) =~= p@.take(pos as int).take(
                                j as int,
                            ).push(p@[j as int]));
                        }
                        key.push(p[j]);
                    } else if j > pos {
                        proof {
                            if j == pos + 1 {
                                assert(p@.skip(pos + 1).take(1) =~= seq![p@[j as int]]);
                            } else {
                                assert(p@.skip(pos + 1).take(j - pos) =~= p@.skip(pos + 1).take(
                                    j - pos - 1,
                                ).push(p@[j as int]));
                            }
                        }
                        val.push(p[j]);
                    }
                    j = j + 1;
                }
                proof {
                    assert(key@ =~= p@.take(pos as int));
                    if p.len() > pos + 1 {
                        assert(val@ =~= p@.skip(pos + 1));
                    } else {
                        assert(p@.skip(pos + 1) =~= Seq::<char>::empty());
                    }
                }
                let ks = string_of(&key);
                let vs = string_of(&val);
                insert_input(&mut inputs, ks, vs);
            },
            None => {
                proof {
                    assert(!exists|j: int| occurs_at(p@, seq![':'], j));
                }
            },
        }
        i = i + 1;
    }
    proof {
        assert(ps.drop_first().take(i - 1) =~= ps.drop_first());
    }
    (name, inputs)
}

// ---------------------------------------------------------------------------
// The table of configured controllers
// ---------------------------------------------------------------------------

/// The configured controllers, keyed by their index.
pub struct ControllerConfig {
    entries: Vec<(usize, Controller)>,
}

/// The plain values of the table's entries, in the order they were added.
pub open spec fn entry_views(v: Seq<(usize, Controller)>) -> Seq<(usize, ControllerView)> {
    v.map_values(|e: (usize, Controller)| (e.0, e.1@))
}

impl View for ControllerConfig {
    type V = Seq<(usize, ControllerView)>;

    closed spec fn view(&self) -> Seq<(usize, ControllerView)> {
        entry_views(self.entries@)
    }
}

/// The indices of the entries are distinct.
pub open spec fn distinct_indices(s: Seq<(usize, ControllerView)>) -> bool {
    forall|i: int, j: int| 0 <= i < j < s.len() ==> (#[trigger] s[i]).0 != (#[trigger] s[j]).0
}

/// An index is configured.
pub open spec fn has_index(s: Seq<(usize, ControllerView)>, index: usize) -> bool {
    exists|i: int| 0 <= i < s.len() && (#[trigger] s[i]).0 == index
}

/// The entries whose controller has (or has not, when `keep` is false) the
/// given GUID, in order.
pub open spec fn with_guid(s: Seq<(usize, ControllerView)>, guid: Seq<char>, keep: bool) -> Seq<
    (usize, ControllerView),
>
    decreases s.len(),
{
    if s.len() == 0 {
        Seq::empty()
    } else if (s.last().1.guid == guid) == keep {
        with_guid(s.drop_last(), guid, keep).push(s.last())
    } else {
        with_guid(s.drop_last(), guid, keep)
    }
}

/// The controllers of a sequence of entries.
pub open spec fn controllers_of(s: Seq<(usize, ControllerView)>) -> Seq<ControllerView> {
    s.map_values(|e: (usize, ControllerView)| e.1)
}

/// The table as a map from index to controller.
pub open spec fn as_map(s: Seq<(usize, ControllerView)>) -> Map<usize, ControllerView> {
    Map::new(
        |k: usize| has_index(s, k),
        |k: usize| s[choose|i: int| 0 <= i < s.len() && (#[trigger] s[i]).0 == k].1,
    )
}

impl ControllerConfig {
    /// The table is well formed: distinct indices, at most eight entries.
    pub open spec fn wf(&self) -> bool {
        distinct_indices(self@) && self@.len() <= MAX_CONTROLLERS
    }

    /// An empty table.
    pub fn new() -> (c: ControllerConfig)
        ensures
            c@ == Seq::<(usize, ControllerView)>::empty(),
            c.wf(),
    {
        let c = ControllerConfig { entries: Vec::new() };
        proof {
            assert(c@ =~= Seq::<(usize, ControllerView)>::empty());
        }
        c
    }

    /// The number of configured controllers.
    pub fn len(&self) -> (n: usize)
        ensures
            n == self@.len(),
    {
        self.entries.len()
    }
}

/// Whether a controller with the given index is configured.
pub fn is_controller_configured(config: &ControllerConfig, index: usize) -> (r: bool)
    ensures
        r == has_index(config@, index),
{
    let ghost s = config@;
    let mut i: usize = 0;
    while i < config.entries.len()
        invariant
            0 <= i <= config.entries.len(),
            s == config@,
            s == entry_views(config.entries@),
            forall|j: int| 0 <= j < i ==> (#[trigger] s[j]).0 != index,
        decreases config.entries.len() - i,
    {
        if config.entries[i].0 == index {
            proof {
                assert(s[i as int].0 == index);
            }
            return true;
        }
        i = i + 1;
    }
    false
}

/// The message of the error returned when the table is full.
pub open spec fn limit_message() -> Seq<char> {
    "Maximum number of controllers (8) reached. Cannot add more."@
}

/// The controller that the mapping data `data` describes for `guid`.
pub open spec fn described_controller(guid: Seq<char>, data: Seq<char>) -> ControllerView {
    ControllerView { guid, name: parse_mapping(data).0, inputs: parse_mapping(data).1 }
}

/// The plain value of the result of adding a controller.
pub open spec fn add_view(r: Result<Option<Controller>, String>) -> Result<
    Option<ControllerView>,
    Seq<char>,
> {
    match r {
        Ok(Some(c)) => Ok(Some(c@)),
        Ok(None) => Ok(None),
        Err(e) => Err(e@),
    }
}

/// What adding the controller `guid` at `index`, with the database mapping
/// `mapping`, returns (`r`) and leaves (`new`) from the table `old`.
pub open spec fn add_outcome(
    old: Seq<(usize, ControllerView)>,
    index: usize,
    guid: Seq<char>,
    mapping: Option<Seq<char>>,
    r: Result<Option<ControllerView>, Seq<char>>,
    new: Seq<(usize, ControllerView)>,
) -> bool {
    if has_index(old, index) || mapping is None {
        r == Ok::<Option<ControllerView>, Seq<char>>(None) && new == old
    } else if old.len() >= MAX_CONTROLLERS {
        r == Err::<Option<ControllerView>, Seq<char>>(limit_message()) && new == old
    } else {
        r == Ok::<Option<ControllerView>, Seq<char>>(
            Some(described_controller(guid, mapping->0)),
        ) && new == old.push((index, described_controller(guid, mapping->0)))
    }
}

/// Adds the configuration of one controller at `index`, given the mapping
/// that the game controller database holds for its GUID (`None` when the
/// database has no entry for it).
///
/// Nothing changes, and `Ok(None)` comes back, when the index is already
/// configured or when there is no mapping; with eight controllers configured
/// the call fails; otherwise the controller is added and returned.
pub fn add_sdl_controller_config(
    config: &mut ControllerConfig,
    index: usize,
    guid: &str,
    mapping_data: Option<&str>,
) -> (r: Result<Option<Controller>, String>)
    requires
        old(config).wf(),
    ensures
        final(config).wf(),
        add_outcome(old(config)@, index, guid@, opt_view(mapping_data), add_view(r), final(config)@),
{
    if is_controller_configured(config, index) {
        return Ok(None);
    }
    match mapping_data {
        None => Ok(None),
        Some(data) => {
            if config.entries.len() >= MAX_CONTROLLERS {
                return Err(String::from_str(
                    "Maximum number of controllers (8) reached. Cannot add more.",
                ));
            }
            let (name, inputs) = parse_controller_mapping_data(data);
            let controller = Controller { guid: String::from_str(guid), name, inputs };
            let copy = clone_controller(&controller);
            let ghost before = config.entries@;
            config.entries.push((index, controller));
            proof {
                assert(entry_views(config.entries@) =~= entry_views(before).push((index, copy@)));
            }
            Ok(Some(copy))
        },
    }
}

/// Removes the controller configurations with the given GUID, or all of
/// them when no GUID is given, and returns the removed controllers in the
/// order they were added.
pub fn remove_sdl_controller_config(config: &mut ControllerConfig, guid_opt: Option<&str>) -> (r:
    Result<Vec<Controller>, String>)
    requires
        old(config).wf(),
    ensures
        final(config).wf(),
        r is Ok,
        guid_opt is None ==> final(config)@ == Seq::<(usize, ControllerView)>::empty() && r->Ok_0@.map_values(
            |c: Controller| c@,
        ) == controllers_of(old(config)@),
        guid_opt matches Some(g) ==> final(config)@ == with_guid(old(config)@, g@, false)
            && r->Ok_0@.map_values(|c: Controller| c@) == controllers_of(
            with_guid(old(config)@, g@, true),
        ),
{
    let ghost s = config@;
    let mut old_entries: Vec<(usize, Controller)> = Vec::new();
    std::mem::swap(&mut old_entries, &mut config.entries);
    let mut kept: Vec<(usize, Controller)> = Vec::new();
    let mut removed: Vec<Controller> = Vec::new();
    let g: Vec<char> = match guid_opt {
        Some(t) => chars_of(t),
        None => Vec::new(),
    };
    let mut i: usize = 0;
    proof {
        assert(s.take(0) =~= Seq::<(usize, ControllerView)>::empty());
    }
    while i < old_entries.len()
        invariant
            0 <= i <= old_entries.len(),
            s == entry_views(old_entries@),
            distinct_indices(s),
            s.len() <= MAX_CONTROLLERS,
            guid_opt matches Some(t) ==> g@ == t@,
            guid_opt is None ==> entry_views(kept@) == Seq::<(usize, ControllerView)>::empty()
                && removed@.map_values(|c: Controller| c@) == controllers_of(s.take(i as int)),
            guid_opt matches Some(t) ==> entry_views(kept@) == with_guid(s.take(i as int), t@, false)
                && removed@.map_values(|c: Controller| c@) == controllers_of(
                with_guid(s.take(i as int), t@, true),
            ),
        decreases old_entries.len() - i,
    {
        proof {
            assert(s.take(i + 1).drop_last() =~= s.take(i as int));
            assert(s.take(i + 1).last() == s[i as int]);
        }
        let gi = chars_of(old_entries[i].1.guid.as_str());
        let ghost before_kept = kept@;
        let ghost before_removed = removed@;
        let matches = match guid_opt {
            Some(_) => chars_eq(&gi, &g),
            None => true,
        };
        if matches {
            let c = clone_controller(&old_entries[i].1);
            removed.push(c);
            proof {
                assert(removed@.map_values(|c: Controller| c@) =~= before_removed.map_values(
                    |c: Controller| c@,
                ).push(s[i as int].1));
                if let Some(t) = guid_opt {
                    assert(controllers_of(with_guid(s.take(i + 1), t@, true)) =~= controllers_of(
                        with_guid(s.take(i as int), t@, true),
                    ).push(s[i as int].1));
                } else {
                    assert(controllers_of(s.take(i + 1)) =~= controllers_of(s.take(i as int)).push(
                        s[i as int].1,
                    ));
                }
            }
        } else {
            let c = clone_controller(&old_entries[i].1);
            kept.push((old_entries[i].0, c));
            proof {
                assert(entry_views(kept@) =~= entry_views(before_kept).push(s[i as int]));
            }
        }
        i = i + 1;
    }
    proof {
        assert(s.take(i as int) =~= s);
        if let Some(t) = guid_opt {
            lemma_with_guid_sub(s, t@, false);
        }
    }
    config.entries = kept;
    proof {
        if guid_opt is None {
            assert(config@ =~= Seq::<(usize, ControllerView)>::empty());
        }
    }
    Ok(removed)
}

/// Every entry of a filtered table is an entry of the table, and the
/// filtered table keeps the order, so it keeps distinct indices and is no
/// longer.
pub proof fn lemma_with_guid_sub(s: Seq<(usize, ControllerView)>, guid: Seq<char>, keep: bool)
    requires
        distinct_indices(s),
    ensures
        distinct_indices(with_guid(s, guid, keep)),
        with_guid(s, guid, keep).len() <= s.len(),
        forall|i: int|
            0 <= i < with_guid(s, guid, keep).len() ==> s.contains(
                #[trigger] with_guid(s, guid, keep)[i],
            ),
        forall|i: int|
            0 <= i < with_guid(s, guid, keep).len() ==> ((#[trigger] with_guid(
                s,
                guid,
                keep,
            )[i]).1.guid == guid) == keep,
    decreases s.len(),
{
    if s.len() > 0 {
        let r = with_guid(s.drop_last(), guid, keep);
        assert(distinct_indices(s.drop_last()));
        lemma_with_guid_sub(s.drop_last(), guid, keep);
        assert forall|i: int| 0 <= i < r.len() implies s.contains(#[trigger] r[i]) by {
            let j = choose|j: int| 0 <= j < s.drop_last().len() && s.drop_last()[j] == r[i];
            assert(s[j] == r[i]);
        }
        if (s.last().1.guid == guid) == keep {
            let w = r.push(s.last());
            assert forall|i: int, j: int| 0 <= i < j < w.len() implies (#[trigger] w[i]).0 != (
            #[trigger] w[j]).0 by {
                if j == w.len() - 1 {
                    let a = choose|a: int| 0 <= a < s.drop_last().len() && s.drop_last()[a] == r[i];
                    assert(s[a] == w[i]);
                    assert(a < s.len() - 1);
                }
            }
            assert forall|i: int| 0 <= i < w.len() implies s.contains(#[trigger] w[i]) by {
                if i == w.len() - 1 {
                    assert(s[s.len() - 1] == w[i]);
                } else {
                    assert(r.contains(r[i]));
                }
            }
        }
    }
}

/// All the configured controllers, keyed by their index.
pub fn get_sdl_controller_config(config: &ControllerConfig) -> (m: HashMap<usize, Controller>)
    requires
        config.wf(),
    ensures
        m@.dom() == as_map(config@).dom(),
        forall|k: usize| #[trigger] m@.contains_key(k) ==> m@[k]@ == as_map(config@)[k],
{
    let ghost s = config@;
    let mut m: HashMap<usize, Controller> = HashMap::new();
    let mut i: usize = 0;
    while i < config.entries.len()
        invariant
            0 <= i <= config.entries.len(),
            s == config@,
            s == entry_views(config.entries@),
            distinct_indices(s),
            forall|k: usize| #[trigger] m@.contains_key(k) <==> has_index(s.take(i as int), k),
            forall|j: int| 0 <= j < i ==> #[trigger] m@.contains_key(s[j].0) && m@[s[j].0]@ == s[j].1,
        decreases config.entries.len() - i,
    {
        let c = clone_controller(&config.entries[i].1);
        let ghost before = m@;
        m.insert(config.entries[i].0, c);
        proof {
            assert(s[i as int] == (config.entries@[i as int].0, config.entries@[i as int].1@));
            assert forall|j: int| 0 <= j < i + 1 implies #[trigger] m@.contains_key(s[j].0) && m@[s[j].0]@ == s[j].1 by {
                if j < i {
                    assert(s[j].0 != s[i as int].0);
                    assert(before.contains_key(s[j].0));
                }
            }
            assert forall|k: usize| #[trigger] m@.contains_key(k) <==> has_index(s.take(i + 1), k) by {
                if has_index(s.take(i + 1), k) {
                    let j = choose|j: int| 0 <= j < s.take(i + 1).len() && (#[trigger] s.take(i + 1)[j]).0 == k;
                    if j < i {
                        assert(s.take(i as int)[j].0 == k);
                    }
                }
                if m@.contains_key(k) && k != s[i as int].0 {
                    let j = choose|j: int| 0 <= j < s.take(i as int).len() && (#[trigger] s.take(i as int)[j]).0 == k;
                    assert(s.take(i + 1)[j].0 == k);
                }
                if k == s[i as int].0 {
                    assert(s.take(i + 1)[i as int].0 == k);
                }
            }
        }
        i = i + 1;
    }
    proof {
        assert(s.take(i as int) =~= s);
        assert forall|k: usize| #[trigger] m@.contains_key(k) implies m@[k]@ == as_map(s)[k] by {
            let j = choose|j: int| 0 <= j < s.len() && (#[trigger] s[j]).0 == k;
            assert(m@[s[j].0]@ == s[j].1);
        }
        assert(m@.dom() =~= as_map(s).dom());
    }
    m
}

/// Adds a single controller configuration (see `add_sdl_controller_config`).
pub fn add_controller(
    config: &mut ControllerConfig,
    index: usize,
    guid: &str,
    mapping_data: Option<&str>,
) -> (r: Result<Option<Controller>, String>)
    requires
        old(config).wf(),
    ensures
        final(config).wf(),
        add_outcome(old(config)@, index, guid@, opt_view(mapping_data), add_view(r), final(config)@),
{
    add_sdl_controller_config(config, index, guid, mapping_data)
}

/// Removes the configurations of the controllers with the given GUID; it
/// succeeds whether or not one was configured.
pub fn remove_controller(config: &mut ControllerConfig, guid: &str) -> (r: Result<(), String>)
    requires
        old(config).wf(),
    ensures
        final(config).wf(),
        r is Ok,
        final(config)@ == with_guid(old(config)@, guid@, false),
{
    let _ = remove_sdl_controller_config(config, Some(guid));
    Ok(())
}

// ---------------------------------------------------------------------------
// Laws
// ---------------------------------------------------------------------------

/// A controller added at a free index, with a mapping in the database, to a
/// table with room for it, is configured afterwards under that index, as its
/// mapping describes it.
pub proof fn law_added_controller_is_configured(
    old: Seq<(usize, ControllerView)>,
    index: usize,
    guid: Seq<char>,
    mapping: Seq<char>,
    r: Result<Option<ControllerView>, Seq<char>>,
    new: Seq<(usize, ControllerView)>,
)
    requires
        distinct_indices(old),
        old.len() < MAX_CONTROLLERS,
        !has_index(old, index),
        add_outcome(old, index, guid, Some(mapping), r, new),
    ensures
        r == Ok::<Option<ControllerView>, Seq<char>>(Some(described_controller(guid, mapping))),
        has_index(new, index),
        distinct_indices(new),
        as_map(new) == as_map(old).insert(index, described_controller(guid, mapping)),
{
    let n = old.len() as int;
    assert(new[n].0 == index);
    assert forall|i: int, j: int| 0 <= i < j < new.len() implies (#[trigger] new[i]).0 != (
    #[trigger] new[j]).0 by {
        if j == n {
            assert(new[i] == old[i]);
            if old[i].0 == index {
                assert(has_index(old, index));
            }
        } else {
            assert(new[i] == old[i]);
            assert(new[j] == old[j]);
        }
    }
    let d = described_controller(guid, mapping);
    lemma_as_map_at(new, n);
    assert forall|k: usize| #[trigger] as_map(new).contains_key(k) <==> as_map(old).insert(
        index,
        d,
    ).contains_key(k) by {
        if has_index(new, k) {
            let i = choose|i: int| 0 <= i < new.len() && (#[trigger] new[i]).0 == k;
            if i < n {
                assert(old[i].0 == k);
            }
        }
        if has_index(old, k) {
            let i = choose|i: int| 0 <= i < old.len() && (#[trigger] old[i]).0 == k;
            assert(new[i].0 == k);
        }
    }
    assert forall|k: usize| #[trigger] as_map(new).contains_key(k) implies as_map(new)[k]
        == as_map(old).insert(index, d)[k] by {
        if k != index {
            let i = choose|i: int| 0 <= i < old.len() && (#[trigger] old[i]).0 == k;
            lemma_as_map_at(old, i);
            assert(new[i] == old[i]);
            lemma_as_map_at(new, i);
        }
    }
    assert(as_map(new) =~= as_map(old).insert(index, d));
}

/// In a table with distinct indices, the map gives each entry's controller
/// under its index.
pub proof fn lemma_as_map_at(s: Seq<(usize, ControllerView)>, i: int)
    requires
        distinct_indices(s),
        0 <= i < s.len(),
    ensures
        as_map(s).contains_key(s[i].0),
        as_map(s)[s[i].0] == s[i].1,
{
    let k = s[i].0;
    assert(has_index(s, k));
    let j = choose|j: int| 0 <= j < s.len() && (#[trigger] s[j]).0 == k;
    if j != i {
        if j < i {
            assert(s[j].0 != s[i].0);
        } else {
            assert(s[i].0 != s[j].0);
        }
    }
}

/// Adding a controller at an index that is already configured, or one that
/// the database has no mapping for, returns `Ok(None)` and leaves the table
/// as it was.
pub proof fn law_refused_add_keeps_table(
    old: Seq<(usize, ControllerView)>,
    index: usize,
    guid: Seq<char>,
    mapping: Option<Seq<char>>,
    r: Result<Option<ControllerView>, Seq<char>>,
    new: Seq<(usize, ControllerView)>,
)
    requires
        has_index(old, index) || mapping is None,
        add_outcome(old, index, guid, mapping, r, new),
    ensures
        r == Ok::<Option<ControllerView>, Seq<char>>(None),
        as_map(new) == as_map(old),
{
}

/// Adding a controller at a free index, with a mapping, to a table that
/// already holds eight controllers fails with the limit message and leaves
/// the table as it was.
pub proof fn law_add_to_full_table_fails(
    old: Seq<(usize, ControllerView)>,
    index: usize,
    guid: Seq<char>,
    mapping: Seq<char>,
    r: Result<Option<ControllerView>, Seq<char>>,
    new: Seq<(usize, ControllerView)>,
)
    requires
        !has_index(old, index),
        old.len() >= MAX_CONTROLLERS,
        add_outcome(old, index, guid, Some(mapping), r, new),
    ensures
        r == Err::<Option<ControllerView>, Seq<char>>(limit_message()),
        as_map(new) == as_map(old),
{
}

/// Once the controllers with a GUID are removed, none of those left has that
/// GUID, and every other controller is still there.
pub proof fn law_removed_guid_is_gone(old: Seq<(usize, ControllerView)>, guid: Seq<char>)
    ensures
        forall|i: int|
            0 <= i < with_guid(old, guid, false).len() ==> (#[trigger] with_guid(
                old,
                guid,
                false,
            )[i]).1.guid != guid,
        forall|i: int|
            0 <= i < old.len() && (#[trigger] old[i]).1.guid != guid ==> with_guid(
                old,
                guid,
                false,
            ).contains(old[i]),
    decreases old.len(),
{
    if old.len() > 0 {
        let t = old.drop_last();
        law_removed_guid_is_gone(t, guid);
        let r = with_guid(t, guid, false);
        let w = with_guid(old, guid, false);
        if (old.last().1.guid == guid) == false {
            assert(w == r.push(old.last()));
            assert forall|i: int| 0 <= i < w.len() implies (#[trigger] w[i]).1.guid != guid by {
                if i < r.len() {
                    assert(w[i] == r[i]);
                }
            }
            assert forall|i: int| 0 <= i < old.len() && (#[trigger] old[i]).1.guid != guid implies w.contains(old[i]) by {
                if i < old.len() - 1 {
                    assert(t[i] == old[i]);
                    let k = choose|k: int| 0 <= k < r.len() && r[k] == t[i];
                    assert(w[k] == r[k]);
                } else {
                    assert(w[w.len() - 1] == old[i]);
                }
            }
        } else {
            assert(w == r);
            assert forall|i: int| 0 <= i < old.len() && (#[trigger] old[i]).1.guid != guid implies w.contains(old[i]) by {
                assert(i < old.len() - 1);
                assert(t[i] == old[i]);
            }
        }
    }
}


/// Removing the controllers with a GUID leaves, under the same indices,
/// exactly the configured controllers that have another GUID.
pub proof fn law_remove_keeps_other_controllers(old: Seq<(usize, ControllerView)>, guid: Seq<char>)
    requires
        distinct_indices(old),
    ensures
        as_map(with_guid(old, guid, false)) == Map::new(
            |k: usize| as_map(old).contains_key(k) && as_map(old)[k].guid != guid,
            |k: usize| as_map(old)[k],
        ),
{
    let w = with_guid(old, guid, false);
    let m = Map::new(
        |k: usize| as_map(old).contains_key(k) && as_map(old)[k].guid != guid,
        |k: usize| as_map(old)[k],
    );
    lemma_with_guid_sub(old, guid, false);
    law_removed_guid_is_gone(old, guid);
    assert forall|k: usize| #[trigger] as_map(w).contains_key(k) <==> m.contains_key(k) by {
        if has_index(w, k) {
            let i = choose|i: int| 0 <= i < w.len() && (#[trigger] w[i]).0 == k;
            assert(old.contains(w[i]));
            let j = choose|j: int| 0 <= j < old.len() && old[j] == w[i];
            lemma_as_map_at(old, j);
            assert(w[i].1.guid != guid);
        }
        if m.contains_key(k) {
            let j = choose|j: int| 0 <= j < old.len() && (#[trigger] old[j]).0 == k;
            lemma_as_map_at(old, j);
            assert(w.contains(old[j]));
            let i = choose|i: int| 0 <= i < w.len() && w[i] == old[j];
            assert(w[i].0 == k);
        }
    }
    assert forall|k: usize| #[trigger] as_map(w).contains_key(k) implies as_map(w)[k] == m[k] by {
        let i = choose|i: int| 0 <= i < w.len() && (#[trigger] w[i]).0 == k;
        assert(old.contains(w[i]));
        let j = choose|j: int| 0 <= j < old.len() && old[j] == w[i];
        lemma_as_map_at(old, j);
        lemma_as_map_at(w, i);
    }
    assert(as_map(w) =~= m);
}

/// The controllers removed for a GUID are exactly the configured
/// controllers with that GUID: each comes from the table under its index,
/// and each configured controller with that GUID is among them.
pub proof fn law_removed_controllers_have_the_guid(old: Seq<(usize, ControllerView)>, guid: Seq<char>)
    requires
        distinct_indices(old),
    ensures
        forall|i: int|
            0 <= i < with_guid(old, guid, true).len() ==> {
                let e = #[trigger] with_guid(old, guid, true)[i];
                &&& e.1.guid == guid
                &&& as_map(old).contains_key(e.0)
                &&& as_map(old)[e.0] == e.1
            },
        forall|k: usize|
            #[trigger] as_map(old).contains_key(k) && as_map(old)[k].guid == guid ==> exists|i: int|
                0 <= i < with_guid(old, guid, true).len() && with_guid(old, guid, true)[i] == (
                    k,
                    as_map(old)[k],
                ),
{
    let w = with_guid(old, guid, true);
    lemma_with_guid_sub(old, guid, true);
    lemma_with_guid_complete(old, guid, true);
    assert forall|i: int| 0 <= i < w.len() implies {
        let e = #[trigger] w[i];
        &&& e.1.guid == guid
        &&& as_map(old).contains_key(e.0)
        &&& as_map(old)[e.0] == e.1
    } by {
        assert(old.contains(w[i]));
        let j = choose|j: int| 0 <= j < old.len() && old[j] == w[i];
        lemma_as_map_at(old, j);
    }
    assert forall|k: usize| #[trigger] as_map(old).contains_key(k) && as_map(old)[k].guid
        == guid implies exists|i: int| 0 <= i < w.len() && w[i] == (k, as_map(old)[k]) by {
        let j = choose|j: int| 0 <= j < old.len() && (#[trigger] old[j]).0 == k;
        lemma_as_map_at(old, j);
        assert(w.contains(old[j]));
    }
}

/// Every entry of the table whose controller has (or has not, when `keep`
/// is false) the GUID is among the filtered entries.
proof fn lemma_with_guid_complete(s: Seq<(usize, ControllerView)>, guid: Seq<char>, keep: bool)
    ensures
        forall|i: int|
            0 <= i < s.len() && ((#[trigger] s[i]).1.guid == guid) == keep ==> with_guid(
                s,
                guid,
                keep,
            ).contains(s[i]),
    decreases s.len(),
{
    if s.len() > 0 {
        let t = s.drop_last();
        lemma_with_guid_complete(t, guid, keep);
        let r = with_guid(t, guid, keep);
        let w = with_guid(s, guid, keep);
        assert forall|i: int| 0 <= i < s.len() && ((#[trigger] s[i]).1.guid == guid) == keep implies w.contains(s[i]) by {
            if i < s.len() - 1 {
                assert(t[i] == s[i]);
                let k = choose|k: int| 0 <= k < r.len() && r[k] == t[i];
                if (s.last().1.guid == guid) == keep {
                    assert(w[k] == r[k]);
                } else {
                    assert(w == r);
                }
            } else {
                assert(w[w.len() - 1] == s[i]);
            }
        }
    }
}

/// A table with nothing configured (as removing every controller leaves it)
/// maps no index.
pub proof fn law_cleared_table_is_empty(s: Seq<(usize, ControllerView)>)
    requires
        s.len() == 0,
    ensures
        as_map(s) == Map::<usize, ControllerView>::empty(),
{
    assert(as_map(s) =~= Map::<usize, ControllerView>::empty());
}

} // verus!
