//! The key vault: a bounded collection of key records, at most one per label.
//!
//! Slots keep their position for the life of the vault: deleting a key leaves
//! an empty slot behind, which a later addition fills again. A key's
//! identifier is the index of its slot.
use vstd::prelude::*;
use crate::error::Error;
use crate::record::{KeyInfo, KeyInfoModel, MAX_LABEL_LEN, copy_range, encode_key_info_spec};
use crate::record::{parse_key_info, push_key_info, read_key_info, lemma_parse_key_info};

verus! {

/// The number of slots of a vault.
pub const VAULT_CAPACITY: usize = 8;

/// The slots of a vault, held inline in a `heapless::Vec` of capacity eight.
#[verifier::external_body]
pub struct SlotArray {
    inner: heapless::Vec<Option<KeyInfo>, 8>,
}

/// What the slots hold, in order.
pub uninterp spec fn slots_of(a: SlotArray) -> Seq<Option<KeyInfo>>;

impl SlotArray {
    /// Relies on heapless::Vec::new: a new vector is empty.
    #[verifier::external_body]
    fn new() -> (r: SlotArray)
        ensures
            slots_of(r) == Seq::<Option<KeyInfo>>::empty(),
    {
        SlotArray { inner: heapless::Vec::new() }
    }

    /// Relies on heapless::Vec::len: the number of items, never above the capacity.
    #[verifier::external_body]
    fn len(&self) -> (r: usize)
        ensures
            r == slots_of(*self).len(),
            r <= VAULT_CAPACITY,
    {
        self.inner.len()
    }

    /// Relies on indexing a heapless::Vec: the item at an index below the length.
    #[verifier::external_body]
    fn get(&self, i: usize) -> (r: &Option<KeyInfo>)
        requires
            i < slots_of(*self).len(),
        ensures
            *r == slots_of(*self)[i as int],
    {
        &self.inner[i]
    }

    /// Relies on heapless::Vec::push: the item is appended while the vector
    /// is below its capacity, and handed back otherwise.
    #[verifier::external_body]
    fn push(a: &mut SlotArray, x: Option<KeyInfo>) -> (r: Result<(), Option<KeyInfo>>)
        ensures
            slots_of(*old(a)).len() < VAULT_CAPACITY ==> r is Ok,
            slots_of(*old(a)).len() < VAULT_CAPACITY ==> slots_of(*final(a)) == slots_of(*old(a)).push(x),
            slots_of(*old(a)).len() >= VAULT_CAPACITY ==> (r matches Err(y) && y == x),
            slots_of(*old(a)).len() >= VAULT_CAPACITY ==> slots_of(*final(a)) == slots_of(*old(a)),
    {
        a.inner.push(x)
    }

    /// Relies on indexing a heapless::Vec mutably: the item at an index below
    /// the length is replaced.
    #[verifier::external_body]
    fn set(a: &mut SlotArray, i: usize, x: Option<KeyInfo>)
        requires
            i < slots_of(*old(a)).len(),
        ensures
            slots_of(*final(a)) == slots_of(*old(a)).update(i as int, x),
    {
        a.inner[i] = x;
    }
}

pub open spec fn slot_view(o: Option<KeyInfo>) -> Option<KeyInfoModel> {
    match o {
        Some(k) => Some(k@),
        None => None,
    }
}

/// Whether a slot holds a key under the label.
pub open spec fn holds_label(o: Option<KeyInfoModel>, l: Seq<u8>) -> bool {
    o matches Some(k) && k.label == l
}

/// The index of the first slot that holds a key under the label, or the
/// number of slots if none does.
pub open spec fn index_of_label(s: Seq<Option<KeyInfoModel>>, l: Seq<u8>) -> int
    decreases s.len(),
{
    if s.len() == 0 {
        0
    } else if holds_label(s[0], l) {
        0
    } else {
        1 + index_of_label(s.drop_first(), l)
    }
}

/// The index of the first empty slot, or the number of slots if none is empty.
pub open spec fn first_empty(s: Seq<Option<KeyInfoModel>>) -> int
    decreases s.len(),
{
    if s.len() == 0 {
        0
    } else if s[0] is None {
        0
    } else {
        1 + first_empty(s.drop_first())
    }
}

/// Whether some slot holds a key under the label.
pub open spec fn label_present(s: Seq<Option<KeyInfoModel>>, l: Seq<u8>) -> bool {
    exists|i: int| 0 <= i < s.len() && #[trigger] holds_label(s[i], l)
}

/// No two slots hold keys under the same label.
pub open spec fn labels_unique(s: Seq<Option<KeyInfoModel>>) -> bool {
    forall|i: int, j: int|
        0 <= i < s.len() && 0 <= j < s.len() && i != j && s[i] is Some && s[j] is Some
            ==> (#[trigger] s[i]).unwrap().label != (#[trigger] s[j]).unwrap().label
}

/// A vault's slots: at most eight, each key record well formed, labels unique.
pub open spec fn slots_wf(s: Seq<Option<KeyInfoModel>>) -> bool {
    &&& s.len() <= VAULT_CAPACITY
    &&& forall|i: int| 0 <= i < s.len() && s[i] is Some ==> (#[trigger] s[i]).unwrap().wf()
    &&& labels_unique(s)
}

/// The slot a key under a label would take: refused for a label that is too
/// long or already present; otherwise the first empty slot, or a new slot at
/// the end; a vault with no room is full.
pub open spec fn admission_spec(s: Seq<Option<KeyInfoModel>>, l: Seq<u8>) -> Result<int, Error> {
    if l.len() > MAX_LABEL_LEN {
        Err(Error::EncodingOverflow)
    } else if label_present(s, l) {
        Err(Error::DuplicateLabel)
    } else if first_empty(s) < s.len() {
        Ok(first_empty(s))
    } else if s.len() < VAULT_CAPACITY {
        Ok(s.len() as int)
    } else {
        Err(Error::VaultFull)
    }
}

/// Adding a key: it goes to the slot that admission gives, and the result
/// names that slot.
pub open spec fn add_key_spec(s: Seq<Option<KeyInfoModel>>, k: KeyInfoModel) -> Result<
    (Seq<Option<KeyInfoModel>>, int),
    Error,
> {
    match admission_spec(s, k.label) {
        Ok(i) => if i < s.len() {
            Ok((s.update(i, Some(k)), i))
        } else {
            Ok((s.push(Some(k)), i))
        },
        Err(e) => Err(e),
    }
}

/// Replacing the key under a label that is present; the slot keeps its place.
pub open spec fn update_key_spec(s: Seq<Option<KeyInfoModel>>, k: KeyInfoModel) -> Result<
    (Seq<Option<KeyInfoModel>>, int),
    Error,
> {
    if !k.wf() {
        Err(Error::EncodingOverflow)
    } else if index_of_label(s, k.label) < s.len() {
        Ok((s.update(index_of_label(s, k.label), Some(k)), index_of_label(s, k.label)))
    } else {
        Err(Error::KeyNotFound)
    }
}

/// Deleting the key of a slot: the slot becomes empty, nothing moves.
pub open spec fn delete_key_spec(s: Seq<Option<KeyInfoModel>>, id: u64) -> Result<
    Seq<Option<KeyInfoModel>>,
    Error,
> {
    if id < s.len() && s[id as int] is Some {
        Ok(s.update(id as int, None))
    } else {
        Err(Error::KeyNotFound)
    }
}

/// The keys of the vault with their identifiers, in slot order.
pub open spec fn present_entries(s: Seq<Option<KeyInfoModel>>) -> Seq<(u64, KeyInfoModel)>
    decreases s.len(),
{
    if s.len() == 0 {
        Seq::empty()
    } else {
        let prefix = present_entries(s.drop_last());
        match s.last() {
            Some(k) => prefix.push(((s.len() - 1) as u64, k)),
            None => prefix,
        }
    }
}

proof fn lemma_index_of_label(s: Seq<Option<KeyInfoModel>>, l: Seq<u8>, i: int)
    requires
        0 <= i <= s.len(),
        forall|j: int| 0 <= j < i ==> !holds_label(#[trigger] s[j], l),
        i == s.len() || holds_label(s[i], l),
    ensures
        index_of_label(s, l) == i,
    decreases s.len(),
{
    if s.len() > 0 && i > 0 {
        let t = s.drop_first();
        assert forall|j: int| 0 <= j < i - 1 implies !holds_label(#[trigger] t[j], l) by {
            assert(t[j] == s[j + 1]);
        }
        assert(!holds_label(s[0], l));
        lemma_index_of_label(t, l, i - 1);
    }
}

proof fn lemma_first_empty(s: Seq<Option<KeyInfoModel>>, i: int)
    requires
        0 <= i <= s.len(),
        forall|j: int| 0 <= j < i ==> (#[trigger] s[j]) is Some,
        i == s.len() || s[i] is None,
    ensures
        first_empty(s) == i,
    decreases s.len(),
{
    if s.len() > 0 && i > 0 {
        let t = s.drop_first();
        assert forall|j: int| 0 <= j < i - 1 implies (#[trigger] t[j]) is Some by {
            assert(t[j] == s[j + 1]);
        }
        assert(s[0] is Some);
        lemma_first_empty(t, i - 1);
    }
}

/// The first slot under a label is the only one, and it exists exactly when
/// the label is present.
pub proof fn lemma_index_of_label_present(s: Seq<Option<KeyInfoModel>>, l: Seq<u8>)
    ensures
        0 <= index_of_label(s, l) <= s.len(),
        index_of_label(s, l) < s.len() <==> label_present(s, l),
        index_of_label(s, l) < s.len() ==> holds_label(s[index_of_label(s, l)], l),
        forall|j: int| 0 <= j < index_of_label(s, l) ==> !holds_label(#[trigger] s[j], l),
    decreases s.len(),
{
    if s.len() > 0 {
        let t = s.drop_first();
        lemma_index_of_label_present(t, l);
        if !holds_label(s[0], l) {
            assert forall|j: int| 0 <= j < index_of_label(s, l) implies !holds_label(
                #[trigger] s[j],
                l,
            ) by {
                if j > 0 {
                    assert(s[j] == t[j - 1]);
                }
            }
            if label_present(s, l) {
                let i = choose|i: int| 0 <= i < s.len() && #[trigger] holds_label(s[i], l);
                assert(i > 0);
                assert(holds_label(t[i - 1], l));
            }
            if label_present(t, l) {
                let i = choose|i: int| 0 <= i < t.len() && #[trigger] holds_label(t[i], l);
                assert(holds_label(s[i + 1], l));
            }
        } else {
            assert(holds_label(s[0], l));
        }
    }
}

pub proof fn lemma_first_empty_bounds(s: Seq<Option<KeyInfoModel>>)
    ensures
        0 <= first_empty(s) <= s.len(),
        first_empty(s) < s.len() ==> s[first_empty(s)] is None,
        forall|j: int| 0 <= j < first_empty(s) ==> (#[trigger] s[j]) is Some,
    decreases s.len(),
{
    if s.len() > 0 {
        let t = s.drop_first();
        lemma_first_empty_bounds(t);
        if s[0] is Some {
            assert forall|j: int| 0 <= j < first_empty(s) implies (#[trigger] s[j]) is Some by {
                if j > 0 {
                    assert(s[j] == t[j - 1]);
                }
            }
        }
    }
}

/// The keys of a vault.
pub struct KeyVault {
    pub slots: SlotArray,
}

impl View for KeyVault {
    type V = Seq<Option<KeyInfoModel>>;

    open spec fn view(&self) -> Seq<Option<KeyInfoModel>> {
        slots_of(self.slots).map_values(|o: Option<KeyInfo>| slot_view(o))
    }
}

impl KeyVault {
    pub open spec fn wf(&self) -> bool {
        slots_wf(self@)
    }

    /// A vault with no slot.
    pub fn new() -> (r: KeyVault)
        ensures
            r@ == Seq::<Option<KeyInfoModel>>::empty(),
            r.wf(),
    {
        let r = KeyVault { slots: SlotArray::new() };
        assert(r@ =~= Seq::<Option<KeyInfoModel>>::empty());
        r
    }

    /// The number of slots, empty ones included.
    pub fn slot_count(&self) -> (r: usize)
        ensures
            r == self@.len(),
            r <= VAULT_CAPACITY,
    {
        self.slots.len()
    }

    /// The content of a slot.
    pub fn slot(&self, i: usize) -> (r: &Option<KeyInfo>)
        requires
            i < self@.len(),
        ensures
            slot_view(*r) == self@[i as int],
    {
        self.slots.get(i)
    }

    /// The identifier of the key stored under a label, if any.
    pub fn find_label(&self, label: &[u8]) -> (r: Option<u64>)
        ensures
            index_of_label(self@, label@) < self@.len() ==> r == Some(
                index_of_label(self@, label@) as u64,
            ),
            index_of_label(self@, label@) >= self@.len() ==> r is None,
            r is Some <==> label_present(self@, label@),
    {
        proof {
            lemma_index_of_label_present(self@, label@);
        }
        let n = self.slots.len();
        let mut i: usize = 0;
        while i < n
            invariant
                n == self@.len(),
                i <= n,
                forall|j: int| 0 <= j < i ==> !holds_label(#[trigger] self@[j], label@),
            decreases n - i,
        {
            match self.slots.get(i) {
                Some(k) => {
                    if crate::gate::bytes_equal(k.label.as_slice(), label) {
                        proof {
                            assert(holds_label(self@[i as int], label@));
                            lemma_index_of_label(self@, label@, i as int);
                        }
                        return Some(i as u64);
                    }
                },
                None => {},
            }
            i = i + 1;
        }
        proof {
            lemma_index_of_label(self@, label@, n as int);
        }
        None
    }

    fn first_empty_slot(&self) -> (r: usize)
        ensures
            r == first_empty(self@),
    {
        let n = self.slots.len();
        let mut i: usize = 0;
        while i < n
            invariant
                n == self@.len(),
                i <= n,
                forall|j: int| 0 <= j < i ==> (#[trigger] self@[j]) is Some,
            decreases n - i,
        {
            if self.slots.get(i).is_none() {
                proof {
                    lemma_first_empty(self@, i as int);
                }
                return i;
            }
            i = i + 1;
        }
        proof {
            lemma_first_empty(self@, n as int);
        }
        n
    }

    /// The identifier a key under the label would get, with the vault left as
    /// it is; it fails as `add_key` would.
    pub fn slot_for_label(&self, label: &[u8]) -> (r: Result<u64, Error>)
        ensures
            match admission_spec(self@, label@) {
                Ok(i) => r == Ok::<u64, Error>(i as u64),
                Err(e) => r == Err::<u64, Error>(e),
            },
    {
        if label.len() > MAX_LABEL_LEN {
            return Err(Error::EncodingOverflow);
        }
        if self.find_label(label).is_some() {
            return Err(Error::DuplicateLabel);
        }
        let free = self.first_empty_slot();
        let n = self.slots.len();
        if free < n {
            Ok(free as u64)
        } else if n < VAULT_CAPACITY {
            Ok(n as u64)
        } else {
            Err(Error::VaultFull)
        }
    }

    /// Adds a key under a new label; the result is the key's identifier.
    /// A label already present gives `DuplicateLabel` and a vault with no
    /// empty slot gives `VaultFull`; on failure the vault is unchanged.
    pub fn add_key(&mut self, entry: KeyInfo) -> (r: Result<u64, Error>)
        requires
            old(self).wf(),
        ensures
            final(self).wf(),
            match add_key_spec(old(self)@, entry@) {
                Ok((s, i)) => r == Ok::<u64, Error>(i as u64) && final(self)@ == s,
                Err(e) => r == Err::<u64, Error>(e) && final(self)@ == old(self)@,
            },
    {
        proof {
            lemma_add_keeps_labels_unique(self@, entry@);
        }
        let id = match self.slot_for_label(entry.label.as_slice()) {
            Ok(id) => id,
            Err(e) => {
                return Err(e);
            },
        };
        proof {
            lemma_first_empty_bounds(self@);
        }
        let n = self.slots.len();
        let ghost model = entry@;
        if (id as usize) < n {
            SlotArray::set(&mut self.slots, id as usize, Some(entry));
            assert(self@ =~= old(self)@.update(id as int, Some(model)));
        } else {
            let _ = SlotArray::push(&mut self.slots, Some(entry));
            assert(self@ =~= old(self)@.push(Some(model)));
        }
        Ok(id)
    }

    /// Replaces the key stored under the entry's label, in place; the result is
    /// the key's identifier. `KeyNotFound` when the label is not present.
    pub fn update_key(&mut self, entry: KeyInfo) -> (r: Result<u64, Error>)
        requires
            old(self).wf(),
        ensures
            final(self).wf(),
            match update_key_spec(old(self)@, entry@) {
                Ok((s, i)) => r == Ok::<u64, Error>(i as u64) && final(self)@ == s,
                Err(e) => r == Err::<u64, Error>(e) && final(self)@ == old(self)@,
            },
    {
        if entry.label.len() > MAX_LABEL_LEN {
            return Err(Error::EncodingOverflow);
        }
        proof {
            lemma_index_of_label_present(self@, entry@.label);
            lemma_update_keeps_labels_unique(self@, entry@);
        }
        match self.find_label(entry.label.as_slice()) {
            None => Err(Error::KeyNotFound),
            Some(id) => {
                let ghost model = entry@;
                let n = self.slots.len();
                assert(id < n);
                SlotArray::set(&mut self.slots, id as usize, Some(entry));
                assert(self@ =~= old(self)@.update(id as int, Some(model)));
                Ok(id)
            },
        }
    }

    /// Empties the slot of a key; no other slot moves. `KeyNotFound` when the
    /// slot does not exist or is empty, and then the vault is unchanged.
    pub fn delete_key(&mut self, id: u64) -> (r: Result<(), Error>)
        requires
            old(self).wf(),
        ensures
            final(self).wf(),
            match delete_key_spec(old(self)@, id) {
                Ok(s) => r is Ok && final(self)@ == s,
                Err(e) => r == Err::<(), Error>(e) && final(self)@ == old(self)@,
            },
    {
        let n = self.slots.len();
        if id >= n as u64 {
            return Err(Error::KeyNotFound);
        }
        if self.slots.get(id as usize).is_none() {
            return Err(Error::KeyNotFound);
        }
        SlotArray::set(&mut self.slots, id as usize, None);
        proof {
            lemma_delete_keeps_labels_unique(old(self)@, id);
        }
        assert(self@ =~= old(self)@.update(id as int, None));
        Ok(())
    }
}

/// A slot as written: `0` for an empty slot, `1` and the key record otherwise.
pub open spec fn encode_slot(o: Option<KeyInfoModel>) -> Seq<u8> {
    match o {
        None => seq![0u8],
        Some(k) => seq![1u8] + encode_key_info_spec(k),
    }
}

pub open spec fn encode_slots(s: Seq<Option<KeyInfoModel>>) -> Seq<u8>
    decreases s.len(),
{
    if s.len() == 0 {
        Seq::empty()
    } else {
        encode_slots(s.drop_last()) + encode_slot(s.last())
    }
}

/// A vault as written: the number of slots in one byte, then each slot.
pub open spec fn encode_vault_spec(s: Seq<Option<KeyInfoModel>>) -> Seq<u8> {
    seq![s.len() as u8] + encode_slots(s)
}

/// Reads a slot at the start of `b`: the slot and the number of bytes it took.
pub open spec fn parse_slot(b: Seq<u8>) -> Option<(Option<KeyInfoModel>, int)> {
    if b.len() == 0 {
        None
    } else if b[0] == 0 {
        Some((None, 1))
    } else if b[0] == 1 {
        match parse_key_info(b.drop_first()) {
            Some((k, m)) => Some((Some(k), 1 + m)),
            None => None,
        }
    } else {
        None
    }
}

/// Reads `count` slots that take up all of `b`.
pub open spec fn parse_slots(b: Seq<u8>, count: nat) -> Option<Seq<Option<KeyInfoModel>>>
    decreases count,
{
    if count == 0 {
        if b.len() == 0 {
            Some(Seq::empty())
        } else {
            None
        }
    } else {
        match parse_slot(b) {
            Some((o, m)) => match parse_slots(b.subrange(m, b.len() as int), (count - 1) as nat) {
                Some(r) => Some(seq![o] + r),
                None => None,
            },
            None => None,
        }
    }
}

/// The vault that stored bytes hold: at most eight slots that take up all
/// the bytes, no label twice.
pub open spec fn decode_vault_spec(b: Seq<u8>) -> Option<Seq<Option<KeyInfoModel>>> {
    if b.len() >= 1 && b[0] <= VAULT_CAPACITY {
        match parse_slots(b.subrange(1, b.len() as int), b[0] as nat) {
            Some(s) => if slots_wf(s) {
                Some(s)
            } else {
                None
            },
            None => None,
        }
    } else {
        None
    }
}

/// The vault that a stored record gives: no record, or one that does not
/// decode, is an empty vault.
pub open spec fn loaded_vault(stored: Option<Seq<u8>>) -> Seq<Option<KeyInfoModel>> {
    match stored {
        Some(b) => match decode_vault_spec(b) {
            Some(s) => s,
            None => Seq::empty(),
        },
        None => Seq::empty(),
    }
}

pub open spec fn prepend(a: Seq<Option<KeyInfoModel>>, r: Option<Seq<Option<KeyInfoModel>>>) -> Option<
    Seq<Option<KeyInfoModel>>,
> {
    match r {
        Some(x) => Some(a + x),
        None => None,
    }
}

proof fn lemma_encode_slots_front(s: Seq<Option<KeyInfoModel>>)
    requires
        s.len() > 0,
    ensures
        encode_slots(s) == encode_slot(s[0]) + encode_slots(s.drop_first()),
    decreases s.len(),
{
    if s.len() == 1 {
        assert(s.drop_last() =~= Seq::<Option<KeyInfoModel>>::empty());
        assert(s.drop_first() =~= Seq::<Option<KeyInfoModel>>::empty());
        assert(encode_slots(s) =~= encode_slot(s[0]) + encode_slots(s.drop_first()));
    } else {
        lemma_encode_slots_front(s.drop_last());
        assert(s.drop_last().drop_first() =~= s.drop_first().drop_last());
        assert(s.drop_first().last() == s.last());
        assert(encode_slots(s) =~= encode_slot(s[0]) + encode_slots(s.drop_first()));
    }
}

proof fn lemma_parse_slot(o: Option<KeyInfoModel>, rest: Seq<u8>)
    requires
        o matches Some(k) ==> k.wf(),
    ensures
        parse_slot(encode_slot(o) + rest) == Some((o, encode_slot(o).len() as int)),
{
    let b = encode_slot(o) + rest;
    match o {
        None => {},
        Some(k) => {
            assert(b.drop_first() =~= encode_key_info_spec(k) + rest);
            lemma_parse_key_info(k, rest);
        },
    }
}

proof fn lemma_parse_slots_step(b: Seq<u8>, count: nat, o: Option<KeyInfoModel>, m: int, r: Seq<Option<KeyInfoModel>>)
    requires
        count > 0,
        parse_slot(b) == Some((o, m)),
        parse_slots(b.subrange(m, b.len() as int), (count - 1) as nat) == Some(r),
    ensures
        parse_slots(b, count) == Some(seq![o] + r),
{
}

proof fn lemma_parse_slots(s: Seq<Option<KeyInfoModel>>)
    requires
        forall|i: int| 0 <= i < s.len() && s[i] is Some ==> (#[trigger] s[i]).unwrap().wf(),
    ensures
        parse_slots(encode_slots(s), s.len()) == Some(s),
    decreases s.len(),
{
    if s.len() > 0 {
        let t = s.drop_first();
        assert forall|i: int| 0 <= i < t.len() && t[i] is Some implies (#[trigger] t[i]).unwrap().wf() by {
            assert(t[i] == s[i + 1]);
        }
        let b = encode_slots(s);
        lemma_encode_slots_front(s);
        lemma_parse_slot(s[0], encode_slots(t));
        let m = encode_slot(s[0]).len() as int;
        assert(b.subrange(m, b.len() as int) =~= encode_slots(t));
        lemma_parse_slots(t);
        lemma_parse_slots_step(b, s.len(), s[0], m, t);
        assert(seq![s[0]] + t =~= s);
    } else {
        assert(encode_slots(s) =~= Seq::<u8>::empty());
        assert(s =~= Seq::<Option<KeyInfoModel>>::empty());
    }
}

/// Decoding an encoded vault gives the vault back, slot for slot.
pub proof fn lemma_vault_round_trip(s: Seq<Option<KeyInfoModel>>)
    requires
        slots_wf(s),
    ensures
        decode_vault_spec(encode_vault_spec(s)) == Some(s),
{
    let b = encode_vault_spec(s);
    assert(b.subrange(1, b.len() as int) =~= encode_slots(s));
    lemma_parse_slots(s);
}

proof fn lemma_present_entries_step(s: Seq<Option<KeyInfoModel>>, i: int)
    requires
        0 <= i < s.len(),
    ensures
        present_entries(s.take(i + 1)) == match s[i] {
            Some(k) => present_entries(s.take(i)).push((i as u64, k)),
            None => present_entries(s.take(i)),
        },
{
    assert(s.take(i + 1).drop_last() =~= s.take(i));
}

impl KeyInfo {
    /// A copy of the record.
    pub fn duplicate(&self) -> (r: KeyInfo)
        ensures
            r@ == self@,
    {
        let label = copy_range(self.label.as_slice(), 0, self.label.len());
        assert(label@ =~= self.label@);
        KeyInfo { label, privkey: self.privkey }
    }
}

impl KeyVault {
    /// The keys with their identifiers, in slot order.
    pub fn list_keys(&self) -> (r: Vec<(u64, KeyInfo)>)
        ensures
            r@.len() == present_entries(self@).len(),
            forall|i: int|
                0 <= i < r@.len() ==> (#[trigger] r@[i]).0 == present_entries(self@)[i].0 && r@[i].1@
                    == present_entries(self@)[i].1,
    {
        let n = self.slots.len();
        let mut out: Vec<(u64, KeyInfo)> = Vec::new();
        let mut i: usize = 0;
        assert(self@.take(0) =~= Seq::<Option<KeyInfoModel>>::empty());
        while i < n
            invariant
                n == self@.len(),
                i <= n,
                out@.len() == present_entries(self@.take(i as int)).len(),
                forall|j: int|
                    0 <= j < out@.len() ==> (#[trigger] out@[j]).0 == present_entries(
                        self@.take(i as int),
                    )[j].0 && out@[j].1@ == present_entries(self@.take(i as int))[j].1,
            decreases n - i,
        {
            proof {
                lemma_present_entries_step(self@, i as int);
            }
            match self.slots.get(i) {
                Some(k) => {
                    out.push((i as u64, k.duplicate()));
                },
                None => {},
            }
            i = i + 1;
        }
        assert(self@.take(n as int) =~= self@);
        out
    }

    /// The bytes of the vault.
    pub fn encode(&self) -> (r: Vec<u8>)
        requires
            self.wf(),
        ensures
            r@ == encode_vault_spec(self@),
    {
        let n = self.slots.len();
        let mut out: Vec<u8> = Vec::new();
        out.push(n as u8);
        let mut i: usize = 0;
        assert(self@.take(0) =~= Seq::<Option<KeyInfoModel>>::empty());
        while i < n
            invariant
                n == self@.len(),
                i <= n,
                self.wf(),
                out@ == seq![n as u8] + encode_slots(self@.take(i as int)),
            decreases n - i,
        {
            assert(self@.take(i + 1).drop_last() =~= self@.take(i as int));
            match self.slots.get(i) {
                Some(k) => {
                    assert(self@[i as int] == Some(k@));
                    out.push(1u8);
                    push_key_info(&mut out, k);
                },
                None => {
                    out.push(0u8);
                },
            }
            i = i + 1;
            assert(out@ =~= seq![n as u8] + encode_slots(self@.take(i as int)));
        }
        assert(self@.take(n as int) =~= self@);
        out
    }

    /// The vault that stored bytes hold; `DecodingError` when they hold none.
    pub fn decode(b: &[u8]) -> (r: Result<KeyVault, Error>)
        ensures
            match decode_vault_spec(b@) {
                None => r is Err && r == Err::<KeyVault, Error>(Error::DecodingError),
                Some(s) => r matches Ok(v) && v@ == s && v.wf(),
            },
    {
        if b.len() < 1 || b[0] as usize > VAULT_CAPACITY {
            return Err(Error::DecodingError);
        }
        let count = b[0] as usize;
        let len = b.len();
        let ghost whole = b@.subrange(1, len as int);
        let mut acc = KeyVault::new();
        let mut pos: usize = 1;
        let mut i: usize = 0;
        assert(whole =~= b@.subrange(pos as int, len as int));
        proof {
            match parse_slots(whole, count as nat) {
                Some(x) => {
                    assert(acc@ + x =~= x);
                },
                None => {},
            }
        }
        while i < count
            invariant
                len == b@.len(),
                count <= VAULT_CAPACITY,
                b@[0] == count,
                whole == b@.subrange(1, len as int),
                1 <= pos <= len,
                i <= count,
                acc@.len() == i,
                acc.wf(),
                parse_slots(whole, count as nat) == prepend(
                    acc@,
                    parse_slots(b@.subrange(pos as int, len as int), (count - i) as nat),
                ),
            decreases count - i,
        {
            let ghost rest = b@.subrange(pos as int, len as int);
            if pos >= len {
                return Err(Error::DecodingError);
            }
            let tag = b[pos];
            assert(rest[0] == tag);
            let ghost acc0 = acc@;
            if tag == 0 {
                proof {
                    assert(rest.subrange(1, rest.len() as int) =~= b@.subrange(pos + 1, len as int));
                }
                let n = acc.slots.len();
                let _ = SlotArray::push(&mut acc.slots, None);
                assert(acc@ =~= acc0.push(None));
                assert(acc0.push(None) =~= acc0 + seq![None]);
                pos = pos + 1;
            } else if tag == 1 {
                assert(rest.drop_first() =~= b@.subrange(pos + 1, len as int));
                match read_key_info(b, pos + 1) {
                    None => {
                        return Err(Error::DecodingError);
                    },
                    Some((k, e)) => {
                        assert(rest.subrange(e - pos, rest.len() as int) =~= b@.subrange(e as int, len as int));
                        if acc.find_label(k.label.as_slice()).is_some() {
                            proof {
                                let j = choose|j: int| 0 <= j < acc0.len() && #[trigger] holds_label(acc0[j], k@.label);
                                lemma_duplicate_not_unique(acc0, k@, parse_slots(b@.subrange(e as int, len as int), (count - i - 1) as nat), j);
                            }
                            return Err(Error::DecodingError);
                        }
                        let ghost km = k@;
                        let _ = SlotArray::push(&mut acc.slots, Some(k));
                        assert(acc@ =~= acc0.push(Some(km)));
                        proof {
                            lemma_push_unique(acc0, km);
                        }
                        assert(acc0.push(Some(km)) =~= acc0 + seq![Some(km)]);
                        pos = e;
                    },
                }
            } else {
                return Err(Error::DecodingError);
            }
            proof {
                let r = parse_slots(b@.subrange(pos as int, len as int), (count - i - 1) as nat);
                match r {
                    Some(x) => {
                        assert(acc0 + (seq![acc@.last()] + x) =~= acc@ + x);
                    },
                    None => {},
                }
            }
            i = i + 1;
        }
        if pos != len {
            return Err(Error::DecodingError);
        }
        assert(b@.subrange(pos as int, len as int) =~= Seq::<u8>::empty());
        assert(acc@ + Seq::<Option<KeyInfoModel>>::empty() =~= acc@);
        Ok(acc)
    }

    /// The vault that a stored record gives: no record, or one that does not
    /// decode, is an empty vault.
    pub fn load(stored: Option<&[u8]>) -> (r: KeyVault)
        ensures
            r@ == loaded_vault(
                match stored {
                    Some(b) => Some(b@),
                    None => None,
                },
            ),
            r.wf(),
    {
        match stored {
            None => KeyVault::new(),
            Some(b) => match KeyVault::decode(b) {
                Ok(v) => v,
                Err(_) => KeyVault::new(),
            },
        }
    }
}

proof fn lemma_push_unique(s: Seq<Option<KeyInfoModel>>, k: KeyInfoModel)
    requires
        slots_wf(s),
        s.len() < VAULT_CAPACITY,
        k.wf(),
        !label_present(s, k.label),
    ensures
        slots_wf(s.push(Some(k))),
{
    let t = s.push(Some(k));
    assert forall|i: int, j: int|
        0 <= i < t.len() && 0 <= j < t.len() && i != j && t[i] is Some && t[j] is Some
            implies (#[trigger] t[i]).unwrap().label != (#[trigger] t[j]).unwrap().label by {
        if i == s.len() {
            assert(!holds_label(s[j], k.label));
        } else if j == s.len() {
            assert(!holds_label(s[i], k.label));
        }
    }
}

proof fn lemma_duplicate_not_unique(
    acc: Seq<Option<KeyInfoModel>>,
    k: KeyInfoModel,
    r: Option<Seq<Option<KeyInfoModel>>>,
    j: int,
)
    requires
        0 <= j < acc.len(),
        holds_label(acc[j], k.label),
    ensures
        match prepend(acc, match r {
            Some(x) => Some(seq![Some(k)] + x),
            None => None,
        }) {
            Some(s) => !slots_wf(s),
            None => true,
        },
{
    match r {
        Some(x) => {
            let s = acc + (seq![Some(k)] + x);
            assert(s[j] == acc[j]);
            assert(s[acc.len() as int] == Some(k));
        },
        None => {},
    }
}

/// The vault after adding keys one after another; the first failure stops it.
pub open spec fn add_all(s: Seq<Option<KeyInfoModel>>, keys: Seq<KeyInfoModel>) -> Result<
    Seq<Option<KeyInfoModel>>,
    Error,
>
    decreases keys.len(),
{
    if keys.len() == 0 {
        Ok(s)
    } else {
        match add_all(s, keys.drop_last()) {
            Ok(t) => match add_key_spec(t, keys.last()) {
                Ok((u, _)) => Ok(u),
                Err(e) => Err(e),
            },
            Err(e) => Err(e),
        }
    }
}

/// Adding a key never leaves two keys under one label, and adding one under
/// a label that is already present fails with `DuplicateLabel` (`add_key`
/// then leaves the vault as it was).
pub proof fn lemma_add_keeps_labels_unique(s: Seq<Option<KeyInfoModel>>, k: KeyInfoModel)
    requires
        slots_wf(s),
    ensures
        k.wf() && label_present(s, k.label) ==> add_key_spec(s, k) == Err::<
            (Seq<Option<KeyInfoModel>>, int),
            Error,
        >(Error::DuplicateLabel),
        add_key_spec(s, k) matches Ok((t, _)) ==> slots_wf(t),
{
    lemma_first_empty_bounds(s);
    if k.wf() && !label_present(s, k.label) {
        let f = first_empty(s);
        if f < s.len() {
            let t = s.update(f, Some(k));
            assert forall|i: int, j: int|
                0 <= i < t.len() && 0 <= j < t.len() && i != j && t[i] is Some && t[j] is Some
                    implies (#[trigger] t[i]).unwrap().label != (#[trigger] t[j]).unwrap().label by {
                if i == f {
                    assert(!holds_label(s[j], k.label));
                } else if j == f {
                    assert(!holds_label(s[i], k.label));
                }
            }
        } else if s.len() < VAULT_CAPACITY {
            lemma_push_unique(s, k);
        }
    }
}

/// Keys `0..n` of a list under distinct labels, in order, as full slots.
pub open spec fn full_slots(keys: Seq<KeyInfoModel>, n: nat) -> Seq<Option<KeyInfoModel>> {
    Seq::new(n, |i: int| Some(keys[i]))
}

proof fn lemma_fill(keys: Seq<KeyInfoModel>, n: nat)
    requires
        n <= VAULT_CAPACITY,
        n <= keys.len(),
        forall|i: int| 0 <= i < keys.len() ==> (#[trigger] keys[i]).wf(),
        forall|i: int, j: int|
            0 <= i < keys.len() && 0 <= j < keys.len() && i != j ==> (#[trigger] keys[i]).label
                != (#[trigger] keys[j]).label,
    ensures
        add_all(Seq::empty(), keys.take(n as int)) == Ok::<Seq<Option<KeyInfoModel>>, Error>(
            full_slots(keys, n),
        ),
    decreases n,
{
    if n == 0 {
        assert(full_slots(keys, 0) =~= Seq::<Option<KeyInfoModel>>::empty());
    } else {
        let m = (n - 1) as nat;
        lemma_fill(keys, m);
        let ks = keys.take(n as int);
        assert(ks.drop_last() =~= keys.take(m as int));
        let s = full_slots(keys, m);
        let k = keys[m as int];
        assert(ks.last() == k);
        if label_present(s, k.label) {
            let i = choose|i: int| 0 <= i < s.len() && #[trigger] holds_label(s[i], k.label);
            assert(keys[i].label == k.label);
        }
        lemma_first_empty(s, m as int);
        assert(s.push(Some(k)) =~= full_slots(keys, n));
    }
}

/// Eight keys under distinct labels all go into an empty vault; a ninth under
/// yet another label then fails with `VaultFull`; once any one of the eight is
/// deleted, the ninth goes in.
pub proof fn lemma_capacity(keys: Seq<KeyInfoModel>, id: u64)
    requires
        keys.len() == VAULT_CAPACITY + 1,
        forall|i: int| 0 <= i < keys.len() ==> (#[trigger] keys[i]).wf(),
        forall|i: int, j: int|
            0 <= i < keys.len() && 0 <= j < keys.len() && i != j ==> (#[trigger] keys[i]).label
                != (#[trigger] keys[j]).label,
        id < VAULT_CAPACITY,
    ensures
        add_all(Seq::empty(), keys.take(VAULT_CAPACITY as int)) == Ok::<
            Seq<Option<KeyInfoModel>>,
            Error,
        >(full_slots(keys, VAULT_CAPACITY as nat)),
        add_key_spec(full_slots(keys, VAULT_CAPACITY as nat), keys[VAULT_CAPACITY as int]) == Err::<
            (Seq<Option<KeyInfoModel>>, int),
            Error,
        >(Error::VaultFull),
        delete_key_spec(full_slots(keys, VAULT_CAPACITY as nat), id) matches Ok(t) && add_key_spec(
            t,
            keys[VAULT_CAPACITY as int],
        ) is Ok,
{
    lemma_fill(keys, VAULT_CAPACITY as nat);
    let s = full_slots(keys, VAULT_CAPACITY as nat);
    let k = keys[VAULT_CAPACITY as int];
    if label_present(s, k.label) {
        let i = choose|i: int| 0 <= i < s.len() && #[trigger] holds_label(s[i], k.label);
        assert(keys[i].label == k.label);
    }
    lemma_first_empty(s, VAULT_CAPACITY as int);
    let t = s.update(id as int, None);
    if label_present(t, k.label) {
        let i = choose|i: int| 0 <= i < t.len() && #[trigger] holds_label(t[i], k.label);
        assert(keys[i].label == k.label);
    }
    lemma_first_empty_bounds(t);
    assert(t[id as int] is None);
}

proof fn lemma_update_keeps_labels_unique(s: Seq<Option<KeyInfoModel>>, k: KeyInfoModel)
    requires
        slots_wf(s),
    ensures
        update_key_spec(s, k) matches Ok((t, _)) ==> slots_wf(t),
{
    lemma_index_of_label_present(s, k.label);
    let i = index_of_label(s, k.label);
    if k.wf() && i < s.len() {
        let t = s.update(i, Some(k));
        assert forall|a: int, b: int|
            0 <= a < t.len() && 0 <= b < t.len() && a != b && t[a] is Some && t[b] is Some
                implies (#[trigger] t[a]).unwrap().label != (#[trigger] t[b]).unwrap().label by {
            if a == i {
                assert(s[a].unwrap().label == k.label);
            } else if b == i {
                assert(s[b].unwrap().label == k.label);
            }
        }
    }
}

proof fn lemma_delete_keeps_labels_unique(s: Seq<Option<KeyInfoModel>>, id: u64)
    requires
        slots_wf(s),
    ensures
        delete_key_spec(s, id) matches Ok(t) ==> slots_wf(t),
{
    if id < s.len() {
        let t = s.update(id as int, None);
        assert forall|a: int, b: int|
            0 <= a < t.len() && 0 <= b < t.len() && a != b && t[a] is Some && t[b] is Some
                implies (#[trigger] t[a]).unwrap().label != (#[trigger] t[b]).unwrap().label by {
            assert(t[a] == s[a]);
            assert(t[b] == s[b]);
        }
    }
}

} // verus!
