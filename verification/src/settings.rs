//! Calibrations kept per device name.
//!
//! A calibration belongs to a microphone and preamp, not to the app: plugging
//! in a different interface must not inherit the last one's offset. So the
//! settings keep one calibration per device name, and storing a new one for a
//! device replaces whatever that device had. What a calibration holds is
//! measured in floating point and lives outside this crate; which one a
//! device gets is decided here.

use vstd::prelude::*;

verus! {

/// Entries as the proofs see them: each device name by its characters.
pub open spec fn keyed<T>(s: Seq<(String, T)>) -> Seq<(Seq<char>, T)> {
    s.map_values(|e: (String, T)| (e.0@, e.1))
}

/// The calibration the first entry for `device` holds, if any entry is for it.
pub open spec fn first_for<T>(s: Seq<(Seq<char>, T)>, device: Seq<char>) -> Option<T>
    decreases s.len(),
{
    if s.len() == 0 {
        None
    } else if s[0].0 == device {
        Some(s[0].1)
    } else {
        first_for(s.drop_first(), device)
    }
}

/// The entries with every one for `device` taken out, the rest in order.
pub open spec fn without<T>(s: Seq<(Seq<char>, T)>, device: Seq<char>) -> Seq<(Seq<char>, T)>
    decreases s.len(),
{
    if s.len() == 0 {
        s
    } else if s.last().0 == device {
        without(s.drop_last(), device)
    } else {
        without(s.drop_last(), device).push(s.last())
    }
}

/// Looking past an entry added at the end finds what was there before, if
/// anything was; otherwise it finds the new entry when that is the device's.
pub proof fn lemma_first_for_push<T>(s: Seq<(Seq<char>, T)>, x: (Seq<char>, T), device: Seq<char>)
    ensures
        first_for(s.push(x), device) == (match first_for(s, device) {
            Some(c) => Some(c),
            None => if x.0 == device {
                Some(x.1)
            } else {
                None
            },
        }),
    decreases s.len(),
{
    if s.len() > 0 {
        assert(s.push(x).drop_first() =~= s.drop_first().push(x));
        lemma_first_for_push(s.drop_first(), x, device);
    } else {
        assert(s.push(x).drop_first().len() == 0);
        reveal_with_fuel(first_for, 2);
    }
}

/// Taking a device's entries out leaves none for it, and leaves what every
/// other device finds unchanged.
pub proof fn lemma_without_facts<T>(s: Seq<(Seq<char>, T)>, device: Seq<char>, other: Seq<char>)
    ensures
        first_for(without(s, device), device) is None,
        other != device ==> first_for(without(s, device), other) == first_for(s, other),
        forall|i: int|
            0 <= i < without(s, device).len() ==> #[trigger] without(s, device)[i].0 != device,
    decreases s.len(),
{
    if s.len() > 0 {
        let rest = s.drop_last();
        lemma_without_facts(rest, device, other);
        assert(s =~= rest.push(s.last()));
        lemma_first_for_push(rest, s.last(), other);
        if s.last().0 != device {
            lemma_first_for_push(without(rest, device), s.last(), device);
            lemma_first_for_push(without(rest, device), s.last(), other);
        }
    }
}

/// No device name occurs twice.
pub open spec fn one_per_device<T>(s: Seq<(Seq<char>, T)>) -> bool {
    forall|i: int, j: int| 0 <= i < j < s.len() ==> #[trigger] s[i].0 != #[trigger] s[j].0
}

/// Every entry left after taking a device out was an entry before.
proof fn lemma_without_keeps_only_entries<T>(s: Seq<(Seq<char>, T)>, device: Seq<char>)
    ensures
        forall|i: int|
            0 <= i < without(s, device).len() ==> exists|j: int|
                0 <= j < s.len() && #[trigger] without(s, device)[i] == s[j],
    decreases s.len(),
{
    if s.len() > 0 {
        let rest = s.drop_last();
        lemma_without_keeps_only_entries(rest, device);
        let w = without(s, device);
        assert forall|i: int| 0 <= i < w.len() implies exists|j: int|
            0 <= j < s.len() && #[trigger] w[i] == s[j] by {
            if i < without(rest, device).len() {
                let j = choose|j: int| 0 <= j < rest.len() && without(rest, device)[i] == rest[j];
                assert(w[i] == s[j]);
            } else {
                assert(w[i] == s[s.len() - 1]);
            }
        }
    }
}

/// Taking a device out keeps every other device to one entry.
proof fn lemma_without_keeps_one_per_device<T>(s: Seq<(Seq<char>, T)>, device: Seq<char>)
    requires
        one_per_device(s),
    ensures
        one_per_device(without(s, device)),
    decreases s.len(),
{
    if s.len() > 0 {
        let rest = s.drop_last();
        assert(one_per_device(rest)) by {
            assert forall|i: int, j: int| 0 <= i < j < rest.len() implies #[trigger] rest[i].0
                != #[trigger] rest[j].0 by {
                assert(s[i] == rest[i] && s[j] == rest[j]);
            }
        }
        lemma_without_keeps_one_per_device(rest, device);
        if s.last().0 != device {
            lemma_without_keeps_only_entries(rest, device);
            let w = without(rest, device);
            let last = s.last();
            assert forall|i: int, j: int| 0 <= i < j < w.push(last).len() implies #[trigger] w.push(
                last,
            )[i].0 != #[trigger] w.push(last)[j].0 by {
                if j == w.len() {
                    let k = choose|k: int| 0 <= k < rest.len() && w[i] == rest[k];
                    assert(s[k] == rest[k]);
                } else {
                    assert(w.push(last)[i] == w[i] && w.push(last)[j] == w[j]);
                }
            }
        }
    }
}

/// Storing a calibration never gives a device a second entry: a book with
/// one entry per device still has one per device afterwards, so a book that
/// starts empty and is only ever stored into never holds two for a device.
pub proof fn lemma_storing_keeps_one_per_device<T>(
    before: Seq<(Seq<char>, T)>,
    device: Seq<char>,
    cal: T,
)
    requires
        one_per_device(before),
    ensures
        one_per_device(without(before, device).push((device, cal))),
{
    lemma_without_keeps_one_per_device(before, device);
    lemma_without_facts(before, device, device);
    let w = without(before, device);
    let after = w.push((device, cal));
    assert forall|i: int, j: int| 0 <= i < j < after.len() implies #[trigger] after[i].0
        != #[trigger] after[j].0 by {
        if j == w.len() {
            assert(after[i] == w[i]);
        } else {
            assert(after[i] == w[i] && after[j] == w[j]);
        }
    }
}

/// One calibration per device name, in the order they were stored.
pub struct CalibrationBook<T> {
    entries: Vec<(String, T)>,
}

impl<T> View for CalibrationBook<T> {
    type V = Seq<(Seq<char>, T)>;

    /// The entries, device names by their characters.
    closed spec fn view(&self) -> Seq<(Seq<char>, T)> {
        keyed(self.entries@)
    }
}

impl<T> CalibrationBook<T> {

    /// A book with nothing in it.
    pub fn new() -> (r: Self)
        ensures
            r@ == Seq::<(Seq<char>, T)>::empty(),
    {
        let r = CalibrationBook { entries: Vec::new() };
        assert(r@ =~= Seq::<(Seq<char>, T)>::empty());
        r
    }

    /// A book holding `entries` as they were read back.
    pub fn from_entries(entries: Vec<(String, T)>) -> (r: Self)
        ensures
            r@ == keyed(entries@),
    {
        CalibrationBook { entries }
    }

    /// The entries, to be written out.
    pub fn into_entries(self) -> (r: Vec<(String, T)>)
        ensures
            keyed(r@) == self@,
    {
        self.entries
    }

    /// How many calibrations are stored.
    pub fn len(&self) -> (r: usize)
        ensures
            r == self@.len(),
    {
        self.entries.len()
    }

    /// The calibration stored for `device`.
    pub fn calibration_for(&self, device: &str) -> (r: Option<&T>)
        ensures
            r == (match first_for(self@, device@) {
                Some(c) => Some(&c),
                None => None,
            }),
    {
        let key = device.to_owned();
        let ghost s = self@;
        assert(s.subrange(0, s.len() as int) =~= s);
        let mut i: usize = 0;
        while i < self.entries.len()
            invariant
                s == keyed(self.entries@),
                key@ == device@,
                i <= s.len(),
                first_for(s, device@) == first_for(s.subrange(i as int, s.len() as int), device@),
            decreases self.entries.len() - i,
        {
            let ghost tail = s.subrange(i as int, s.len() as int);
            assert(tail.drop_first() =~= s.subrange(i + 1, s.len() as int));
            if self.entries[i].0 == key {
                return Some(&self.entries[i].1);
            }
            i = i + 1;
        }
        None
    }

    /// Take every calibration for `device` out, keeping the rest in order.
    pub fn clear_calibration(&mut self, device: &str)
        ensures
            final(self)@ == without(old(self)@, device@),
    {
        let key = device.to_owned();
        let ghost s = old(self)@;
        let ghost mut k: int = 0;
        let mut i: usize = 0;
        while i < self.entries.len()
            invariant
                key@ == device@,
                0 <= k <= s.len(),
                keyed(self.entries@) == without(s.subrange(0, k), device@) + s.subrange(k, s.len() as int),
                i == without(s.subrange(0, k), device@).len(),
            decreases self.entries.len() - i,
        {
            let ghost before = keyed(self.entries@);
            let ghost kept = without(s.subrange(0, k), device@);
            assert(before[i as int] == s[k]);
            assert(s.subrange(0, k + 1).drop_last() =~= s.subrange(0, k));
            assert(s.subrange(0, k + 1).last() == s[k]);
            let ghost raw = self.entries@;
            if self.entries[i].0 == key {
                let _gone = self.entries.remove(i);
                proof {
                    assert(keyed(self.entries@) =~= before.remove(i as int)) by {
                        assert(self.entries@ =~= raw.remove(i as int));
                    }
                    assert(keyed(self.entries@) =~= kept + s.subrange(k + 1, s.len() as int));
                    k = k + 1;
                }
            } else {
                i = i + 1;
                proof {
                    assert(keyed(self.entries@) =~= kept.push(s[k]) + s.subrange(k + 1, s.len() as int));
                    k = k + 1;
                }
            }
        }
        proof {
            assert(k == s.len()) by {
                if k < s.len() {
                    assert(keyed(self.entries@).len() > i);
                }
            }
            assert(s.subrange(0, k) =~= s);
            assert(keyed(self.entries@) =~= without(s, device@));
        }
    }

    /// Store `cal` for `device`, replacing whatever that device had.
    pub fn set_calibration(&mut self, device: String, cal: T)
        ensures
            final(self)@ == without(old(self)@, device@).push((device@, cal)),
    {
        self.clear_calibration(device.as_str());
        let ghost cleared = self@;
        let ghost d = device@;
        self.entries.push((device, cal));
        assert(self@ =~= cleared.push((d, cal)));
    }
}

/// A calibration stored for a device is the one that device gets back, and
/// storing it changes what no other device gets.
pub proof fn lemma_set_then_get<T>(
    before: Seq<(Seq<char>, T)>,
    device: Seq<char>,
    cal: T,
    other: Seq<char>,
)
    ensures
        first_for(without(before, device).push((device, cal)), device) == Some(cal),
        other != device ==> first_for(without(before, device).push((device, cal)), other)
            == first_for(before, other),
{
    lemma_without_facts(before, device, other);
    lemma_first_for_push(without(before, device), (device, cal), device);
    lemma_first_for_push(without(before, device), (device, cal), other);
}

/// A device whose calibrations were cleared gets none back, and clearing one
/// device changes what no other device gets.
pub proof fn lemma_clear_then_get<T>(before: Seq<(Seq<char>, T)>, device: Seq<char>, other: Seq<char>)
    ensures
        first_for(without(before, device), device) is None,
        other != device ==> first_for(without(before, device), other) == first_for(before, other),
{
    lemma_without_facts(before, device, other);
}

/// After a calibration is stored for a device, the book holds exactly one
/// entry for that device: the last one.
pub proof fn lemma_one_entry_per_device<T>(before: Seq<(Seq<char>, T)>, device: Seq<char>, cal: T)
    ensures
        ({
            let after = without(before, device).push((device, cal));
            &&& after.last().0 == device
            &&& forall|i: int| 0 <= i < after.len() - 1 ==> #[trigger] after[i].0 != device
        }),
{
    lemma_without_facts(before, device, device);
    let after = without(before, device).push((device, cal));
    assert forall|i: int| 0 <= i < after.len() - 1 implies #[trigger] after[i].0 != device by {
        assert(after[i] == without(before, device)[i]);
    }
}

} // verus!
