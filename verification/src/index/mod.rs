//! The catalogue of known tunes: the settings and the names of every tune.

pub mod schema;

use crate::index::schema::{id_number, parse_id, Setting, SettingID, TuneID};
use crate::query::rank::{lemma_ranking_members, ranking_order, sort_ranked, Ranked};
use crate::text::{duplicate_texts, texts};
use vstd::prelude::*;
use vstd::relations::total_ordering;

verus! {

/// The catalogue. Settings and tunes are kept in the order they were given
/// in; an identifier occurs once only among the settings, and once only among the tunes.
pub struct TuneIndex {
    /// Each setting under its identifier.
    pub settings: Vec<(SettingID, Setting)>,
    /// The names of each tune under the tune's identifier, the canonical name first.
    pub aliases: Vec<(TuneID, Vec<String>)>,
}

/// The place of an identifier in the order of a catalogue: identifiers that
/// hold a number come first, by rising number; `position` is where the
/// identifier stood before, which decides between identifiers that are otherwise equal.
#[derive(Debug, Clone, Copy, PartialEq, Eq, Structural)]
pub struct OrderedId {
    pub position: usize,
    pub numbered: bool,
    pub number: i32,
}

impl Ranked for OrderedId {
    /// Identifiers with a number before the others, the lower number first;
    /// of identifiers otherwise equal the one that stood first.
    open spec fn precedes(self, other: Self) -> bool {
        if self.numbered != other.numbered {
            self.numbered
        } else if self.number != other.number {
            self.number < other.number
        } else {
            self.position <= other.position
        }
    }

    proof fn lemma_total_order() {
        let leq = |a: Self, b: Self| a.precedes(b);
        assert(total_ordering(leq)) by {
            assert forall|x: Self, y: Self| #[trigger] leq(x, y) && #[trigger] leq(y, x) implies x
                == y by {}
        }
    }

    fn comes_first(&self, other: &Self) -> (first: bool) {
        if self.numbered != other.numbered {
            self.numbered
        } else if self.number != other.number {
            self.number < other.number
        } else {
            self.position <= other.position
        }
    }
}

/// The place of the identifier `id` that stands at `position`.
pub open spec fn ordered_id(id: Seq<char>, position: int) -> OrderedId {
    OrderedId {
        position: position as usize,
        numbered: id_number(id) is Some,
        number: match id_number(id) {
            Some(number) => number as i32,
            None => 0,
        },
    }
}

/// The order of a catalogue whose identifiers are `ids`: the identifiers
/// that hold a number by rising number, then the others; identifiers that
/// are otherwise equal stay in the order they were given in.
pub open spec fn catalogue_order(ids: Seq<Seq<char>>) -> Seq<OrderedId> {
    Seq::new(ids.len(), |i: int| ordered_id(ids[i], i)).sort_by(ranking_order::<OrderedId>())
}

/// The identifiers of `settings`.
pub open spec fn setting_ids(settings: Seq<(SettingID, Setting)>) -> Seq<Seq<char>> {
    Seq::new(settings.len(), |i: int| settings[i].0@)
}

/// The identifiers of `aliases`.
pub open spec fn tune_ids(aliases: Seq<(TuneID, Vec<String>)>) -> Seq<Seq<char>> {
    Seq::new(aliases.len(), |k: int| aliases[k].0@)
}

/// Puts identifiers in the order of a catalogue.
fn order_ids(ids: &Vec<String>) -> (order: Vec<OrderedId>)
    ensures
        order@ == catalogue_order(texts(ids@)),
        order@.len() == ids@.len(),
        forall|r: int| 0 <= r < order@.len() ==> (#[trigger] order@[r]).position < ids@.len(),
{
    let mut keys: Vec<OrderedId> = Vec::new();
    let mut i: usize = 0;
    while i < ids.len()
        invariant
            i <= ids@.len(),
            keys@.len() == i,
            forall|j: int| 0 <= j < i ==> (#[trigger] keys@[j]) == ordered_id(ids@[j]@, j),
        decreases ids@.len() - i,
    {
        let key = match parse_id(&ids[i]) {
            Some(number) => OrderedId { position: i, numbered: true, number },
            None => OrderedId { position: i, numbered: false, number: 0 },
        };
        keys.push(key);
        i += 1;
    }
    assert(keys@ =~= Seq::new(texts(ids@).len(), |i: int| ordered_id(texts(ids@)[i], i)));
    let order = sort_ranked(&keys);
    proof {
        lemma_ranking_members(order@, keys@);
        assert forall|r: int| 0 <= r < order@.len() implies (#[trigger] order@[r]).position
            < ids@.len() by {
            assert(keys@.contains(order@[r]));
            let j = choose|j: int| 0 <= j < keys@.len() && keys@[j] == order@[r];
            assert(keys@[j].position == j);
        }
    }
    order
}

impl TuneIndex {
    /// A catalogue of the settings and names given, in the order of a
    /// catalogue: settings and tunes by rising number of their identifiers.
    pub fn ordered(settings: Vec<(SettingID, Setting)>, aliases: Vec<(TuneID, Vec<String>)>) -> (index:
        TuneIndex)
        ensures
            index.settings@.len() == settings@.len(),
            index.aliases@.len() == aliases@.len(),
            forall|r: int|
                0 <= r < settings@.len() ==> {
                    let from = catalogue_order(setting_ids(settings@))[r].position as int;
                    &&& 0 <= from < settings@.len()
                    &&& (#[trigger] index.settings@[r]).0@ == settings@[from].0@
                    &&& index.settings@[r].1@ == settings@[from].1@
                },
            forall|r: int|
                0 <= r < aliases@.len() ==> {
                    let from = catalogue_order(tune_ids(aliases@))[r].position as int;
                    &&& 0 <= from < aliases@.len()
                    &&& (#[trigger] index.aliases@[r]).0@ == aliases@[from].0@
                    &&& texts(index.aliases@[r].1@) == texts(aliases@[from].1@)
                },
    {
        let mut ids: Vec<String> = Vec::new();
        let mut i: usize = 0;
        while i < settings.len()
            invariant
                i <= settings@.len(),
                ids@.len() == i,
                forall|j: int| 0 <= j < i ==> (#[trigger] ids@[j])@ == settings@[j].0@,
            decreases settings@.len() - i,
        {
            ids.push(settings[i].0.clone());
            i += 1;
        }
        assert(texts(ids@) =~= setting_ids(settings@));
        let order = order_ids(&ids);
        let mut ordered_settings: Vec<(SettingID, Setting)> = Vec::new();
        let mut r: usize = 0;
        while r < order.len()
            invariant
                r <= order@.len(),
                order@.len() == settings@.len(),
                order@ == catalogue_order(setting_ids(settings@)),
                forall|r: int| 0 <= r < order@.len() ==> (#[trigger] order@[r]).position < settings@.len(),
                ordered_settings@.len() == r,
                forall|q: int|
                    0 <= q < r ==> (#[trigger] ordered_settings@[q]).0@ == settings@[order@[q].position as int].0@
                        && ordered_settings@[q].1@ == settings@[order@[q].position as int].1@,
            decreases order@.len() - r,
        {
            let from = order[r].position;
            assert(order@[r as int].position < settings@.len());
            let entry = &settings[from];
            ordered_settings.push((entry.0.clone(), entry.1.duplicate()));
            r += 1;
        }
        let mut tunes: Vec<String> = Vec::new();
        let mut k: usize = 0;
        while k < aliases.len()
            invariant
                k <= aliases@.len(),
                tunes@.len() == k,
                forall|l: int| 0 <= l < k ==> (#[trigger] tunes@[l])@ == aliases@[l].0@,
            decreases aliases@.len() - k,
        {
            tunes.push(aliases[k].0.clone());
            k += 1;
        }
        assert(texts(tunes@) =~= tune_ids(aliases@));
        let tune_order = order_ids(&tunes);
        let mut ordered_aliases: Vec<(TuneID, Vec<String>)> = Vec::new();
        let mut r: usize = 0;
        while r < tune_order.len()
            invariant
                r <= tune_order@.len(),
                tune_order@.len() == aliases@.len(),
                tune_order@ == catalogue_order(tune_ids(aliases@)),
                forall|r: int|
                    0 <= r < tune_order@.len() ==> (#[trigger] tune_order@[r]).position < aliases@.len(),
                ordered_aliases@.len() == r,
                forall|q: int|
                    0 <= q < r ==> (#[trigger] ordered_aliases@[q]).0@ == aliases@[tune_order@[q].position as int].0@
                        && texts(ordered_aliases@[q].1@) == texts(
                        aliases@[tune_order@[q].position as int].1@,
                    ),
            decreases tune_order@.len() - r,
        {
            let from = tune_order[r].position;
            assert(tune_order@[r as int].position < aliases@.len());
            let entry = &aliases[from];
            ordered_aliases.push((entry.0.clone(), duplicate_texts(&entry.1)));
            r += 1;
        }
        TuneIndex { settings: ordered_settings, aliases: ordered_aliases }
    }

    /// The identifier of the setting at position `i`.
    pub open spec fn setting_id(&self, i: int) -> Seq<char> {
        self.settings@[i].0@
    }

    /// The tune of the setting at position `i`.
    pub open spec fn setting_tune(&self, i: int) -> Seq<char> {
        self.settings@[i].1.tune_id@
    }

    /// The contour of the setting at position `i`.
    pub open spec fn setting_contour(&self, i: int) -> Seq<char> {
        self.settings@[i].1.contour@
    }

    /// The identifier of the tune at position `k`.
    pub open spec fn tune_id(&self, k: int) -> Seq<char> {
        self.aliases@[k].0@
    }

    /// The names of the tune at position `k`.
    pub open spec fn tune_names(&self, k: int) -> Seq<String> {
        self.aliases@[k].1@
    }

    /// Whether `k` is the position of the tune `tune`.
    pub open spec fn is_tune_position(&self, tune: Seq<char>, k: int) -> bool {
        0 <= k < self.aliases@.len() && self.tune_id(k) == tune
    }

    /// Whether the tune `tune` is listed with at least one name.
    pub open spec fn tune_named(&self, tune: Seq<char>) -> bool {
        exists|k: int| #[trigger] self.is_tune_position(tune, k) && self.tune_names(k).len() > 0
    }

    /// Whether `i` is the position of a setting of the tune `tune`.
    pub open spec fn is_setting_of(&self, tune: Seq<char>, i: int) -> bool {
        0 <= i < self.settings@.len() && self.setting_tune(i) == tune
    }

    /// Whether the tune `tune` has at least one setting.
    pub open spec fn tune_has_setting(&self, tune: Seq<char>) -> bool {
        exists|i: int| #[trigger] self.is_setting_of(tune, i)
    }

    /// No identifier is given to two settings.
    pub open spec fn settings_distinct(&self) -> bool {
        forall|i: int, j: int|
            0 <= i < j < self.settings@.len() ==> #[trigger] self.setting_id(i)
                != #[trigger] self.setting_id(j)
    }

    /// No identifier is given to two tunes.
    pub open spec fn tunes_distinct(&self) -> bool {
        forall|k: int, l: int|
            0 <= k < l < self.aliases@.len() ==> #[trigger] self.tune_id(k)
                != #[trigger] self.tune_id(l)
    }

    /// What every query relies on: identifiers are distinct, every setting
    /// identifier holds a number, every setting belongs to a tune with a
    /// name, and every tune has a setting.
    pub open spec fn wf(&self) -> bool {
        &&& self.settings_distinct()
        &&& self.tunes_distinct()
        &&& forall|i: int|
            0 <= i < self.settings@.len() ==> id_number(#[trigger] self.setting_id(i)) is Some
        &&& forall|i: int|
            0 <= i < self.settings@.len() ==> self.tune_named(#[trigger] self.setting_tune(i))
        &&& forall|k: int|
            0 <= k < self.aliases@.len() ==> self.tune_has_setting(#[trigger] self.tune_id(k))
    }

    /// The position of the tune `tune_id` among the tunes: the first one that bears the identifier.
    pub fn find_tune(&self, tune_id: &String) -> (found: Option<usize>)
        ensures
            match found {
                Some(k) => self.is_tune_position(tune_id@, k as int) && forall|l: int|
                    0 <= l < k ==> !self.is_tune_position(tune_id@, l),
                None => forall|l: int| !self.is_tune_position(tune_id@, l),
            },
    {
        let mut k: usize = 0;
        while k < self.aliases.len()
            invariant
                k <= self.aliases@.len(),
                forall|l: int| 0 <= l < k ==> !self.is_tune_position(tune_id@, l),
            decreases self.aliases@.len() - k,
        {
            if self.aliases[k].0 == *tune_id {
                return Some(k);
            }
            k += 1;
        }
        None
    }

    /// The position of the first setting of the tune `tune_id`, in the order of the catalogue.
    pub fn find_setting_of(&self, tune_id: &String) -> (found: Option<usize>)
        ensures
            match found {
                Some(i) => self.is_setting_of(tune_id@, i as int) && forall|j: int|
                    0 <= j < i ==> !self.is_setting_of(tune_id@, j),
                None => forall|j: int| !self.is_setting_of(tune_id@, j),
            },
    {
        let mut i: usize = 0;
        while i < self.settings.len()
            invariant
                i <= self.settings@.len(),
                forall|j: int| 0 <= j < i ==> !self.is_setting_of(tune_id@, j),
            decreases self.settings@.len() - i,
        {
            if self.settings[i].1.tune_id == *tune_id {
                return Some(i);
            }
            i += 1;
        }
        None
    }

    /// Tells whether the catalogue is one that queries can rely on.
    pub fn is_well_formed(&self) -> (ok: bool)
        ensures
            ok == self.wf(),
    {
        let n = self.settings.len();
        let m = self.aliases.len();
        let mut i: usize = 0;
        while i < n
            invariant
                i <= n,
                n == self.settings@.len(),
                forall|a: int, b: int|
                    0 <= a < b < n && a < i ==> #[trigger] self.setting_id(a)
                        != #[trigger] self.setting_id(b),
                forall|a: int| 0 <= a < i ==> id_number(#[trigger] self.setting_id(a)) is Some,
                forall|a: int| 0 <= a < i ==> self.tune_named(#[trigger] self.setting_tune(a)),
            decreases n - i,
        {
            if parse_id(&self.settings[i].0).is_none() {
                assert(id_number(self.setting_id(i as int)) is None);
                return false;
            }
            match self.find_tune(&self.settings[i].1.tune_id) {
                None => {
                    assert(!self.tune_named(self.setting_tune(i as int)));
                    return false;
                },
                Some(k) => {
                    if self.aliases[k].1.len() == 0 {
                        proof {
                            if self.tunes_distinct() {
                                assert forall|l: int| #[trigger]
                                    self.is_tune_position(self.setting_tune(i as int), l) implies l
                                    == k by {
                                    if l < k {
                                        assert(self.tune_id(l) != self.tune_id(k as int));
                                    } else if l > k {
                                        assert(self.tune_id(k as int) != self.tune_id(l));
                                    }
                                }
                                assert(!self.tune_named(self.setting_tune(i as int)));
                            }
                        }
                        return false;
                    }
                    assert(self.is_tune_position(self.setting_tune(i as int), k as int));
                },
            }
            let mut j: usize = i + 1;
            while j < n
                invariant
                    i < j <= n,
                    n == self.settings@.len(),
                    forall|b: int|
                        i < b < j ==> self.setting_id(i as int) != #[trigger] self.setting_id(b),
                decreases n - j,
            {
                if self.settings[i].0 == self.settings[j].0 {
                    assert(self.setting_id(i as int) == self.setting_id(j as int));
                    return false;
                }
                j += 1;
            }
            i += 1;
        }
        let mut k: usize = 0;
        while k < m
            invariant
                k <= m,
                m == self.aliases@.len(),
                forall|a: int, b: int|
                    0 <= a < b < m && a < k ==> #[trigger] self.tune_id(a) != #[trigger] self.tune_id(
                        b,
                    ),
                forall|a: int| 0 <= a < k ==> self.tune_has_setting(#[trigger] self.tune_id(a)),
            decreases m - k,
        {
            match self.find_setting_of(&self.aliases[k].0) {
                None => {
                    assert(!self.tune_has_setting(self.tune_id(k as int)));
                    return false;
                },
                Some(i) => {
                    assert(self.is_setting_of(self.tune_id(k as int), i as int));
                },
            }
            let mut l: usize = k + 1;
            while l < m
                invariant
                    k < l <= m,
                    m == self.aliases@.len(),
                    forall|b: int| k < b < l ==> self.tune_id(k as int) != #[trigger] self.tune_id(b),
                decreases m - l,
            {
                if self.aliases[k].0 == self.aliases[l].0 {
                    assert(self.tune_id(k as int) == self.tune_id(l as int));
                    return false;
                }
                l += 1;
            }
            k += 1;
        }
        true
    }
}

} // verus!
