use vstd::prelude::*;
use crate::text::str_eq;

verus! {

/// The classified type of a staked item.
#[derive(Clone, Copy, Debug, PartialEq, Eq, Structural)]
pub enum ItemType {
    Queen,
    Worker,
    Drone,
}

/// One attribute of an item's metadata: a trait name and its value.
#[derive(Clone, Debug)]
pub struct Attribute {
    pub trait_type: String,
    pub value: String,
}

/// Whether some attribute in `attrs` has the given trait name and value.
pub open spec fn has_trait(attrs: Seq<Attribute>, name: Seq<char>, value: Seq<char>) -> bool {
    exists|i: int|
        0 <= i < attrs.len() && attrs[i].trait_type@ == name && attrs[i].value@ == value
}

/// Classification of an attribute list.
///
/// A `Body = Queen` attribute classifies the item as a queen; failing that,
/// a `Wings = Diamond` attribute classifies it as a worker; anything else,
/// including an empty list, is a drone.  The queen rule takes priority even
/// when both attributes are present.
pub open spec fn spec_classify(attrs: Seq<Attribute>) -> ItemType {
    if has_trait(attrs, "Body"@, "Queen"@) {
        ItemType::Queen
    } else if has_trait(attrs, "Wings"@, "Diamond"@) {
        ItemType::Worker
    } else {
        ItemType::Drone
    }
}

/// Classifies an item from its metadata attribute list.
///
/// The scan is order-independent: the result depends only on which
/// trait/value pairs occur in the list.
pub fn classify_attributes(attrs: &Vec<Attribute>) -> (t: ItemType)
    ensures
        t == spec_classify(attrs@),
{
    let mut is_queen = false;
    let mut is_worker = false;
    let mut i: usize = 0;
    while i < attrs.len()
        invariant
            0 <= i <= attrs.len(),
            is_queen == has_trait(attrs@.take(i as int), "Body"@, "Queen"@),
            is_worker == has_trait(attrs@.take(i as int), "Wings"@, "Diamond"@),
        decreases attrs.len() - i,
    {
        let attr = &attrs[i];
        if str_eq(attr.trait_type.as_str(), "Body") && str_eq(attr.value.as_str(), "Queen") {
            is_queen = true;
        } else if str_eq(attr.trait_type.as_str(), "Wings")
            && str_eq(attr.value.as_str(), "Diamond") {
            is_worker = true;
        }
        proof {
            reveal_strlit("Body");
            reveal_strlit("Queen");
            reveal_strlit("Wings");
            reveal_strlit("Diamond");
            let ext = attrs@.take(i + 1 as int);
            assert(ext.drop_last() =~= attrs@.take(i as int));
            lemma_has_trait_step(ext, "Body"@, "Queen"@);
            lemma_has_trait_step(ext, "Wings"@, "Diamond"@);
            // The four marker literals are pairwise distinct; their lengths
            // witness it once the literals are revealed.
            assert("Body"@.len() == 4);
            assert("Wings"@.len() == 5);
            assert("Queen"@.len() == 5);
            assert("Diamond"@.len() == 7);
            assert("Body"@ != "Wings"@);
            assert("Queen"@ != "Diamond"@);
        }
        i = i + 1;
    }
    proof {
        assert(attrs@.take(attrs@.len() as int) =~= attrs@);
    }
    if is_queen {
        ItemType::Queen
    } else if is_worker {
        ItemType::Worker
    } else {
        ItemType::Drone
    }
}

/// Extending an attribute list by one entry finds a trait exactly when the
/// prefix already has it or the new entry is it.
proof fn lemma_has_trait_step(attrs: Seq<Attribute>, name: Seq<char>, value: Seq<char>)
    requires
        attrs.len() >= 1,
    ensures
        has_trait(attrs, name, value) <==> (has_trait(attrs.drop_last(), name, value)
            || (attrs.last().trait_type@ == name && attrs.last().value@ == value)),
{
    if has_trait(attrs.drop_last(), name, value) {
        let i = choose|i: int|
            0 <= i < attrs.drop_last().len() && attrs.drop_last()[i].trait_type@ == name
                && attrs.drop_last()[i].value@ == value;
        assert(attrs[i].trait_type@ == name && attrs[i].value@ == value);
    }
    if attrs.last().trait_type@ == name && attrs.last().value@ == value {
        assert(attrs[attrs.len() - 1].trait_type@ == name);
    }
    if has_trait(attrs, name, value) {
        let i = choose|i: int|
            0 <= i < attrs.len() && attrs[i].trait_type@ == name && attrs[i].value@ == value;
        if i < attrs.len() - 1 {
            assert(attrs.drop_last()[i].trait_type@ == name);
        }
    }
}

/// Classification looks only at the attribute list: two items with the same
/// attributes always classify alike, an item carrying both the queen and the
/// worker marker classifies as a queen, and one carrying neither classifies
/// as a drone.
pub proof fn lemma_classification_determinism(attrs: Seq<Attribute>, other: Seq<Attribute>)
    ensures
        attrs == other ==> spec_classify(attrs) == spec_classify(other),
        has_trait(attrs, "Body"@, "Queen"@) ==> spec_classify(attrs) == ItemType::Queen,
        !has_trait(attrs, "Body"@, "Queen"@) && !has_trait(attrs, "Wings"@, "Diamond"@)
            ==> spec_classify(attrs) == ItemType::Drone,
{
}

/// The static mapping from classified item type to reward weight.
///
/// The table is fixed at engine construction and read-only afterwards.  Each
/// weight is kept within 32 bits so that per-stake weight sums provably fit
/// the machine arithmetic used by distribution.
#[derive(Clone, Copy, Debug, PartialEq, Eq, Structural)]
pub struct ItemWeightTable {
    pub queen: u64,
    pub worker: u64,
    pub drone: u64,
}

impl ItemWeightTable {
    /// Every weight fits in 32 bits.
    pub open spec fn wf(self) -> bool {
        self.queen <= u32::MAX && self.worker <= u32::MAX && self.drone <= u32::MAX
    }

    /// The largest weight the table assigns to any type: an upper bound on
    /// the weight of a single newly classified item.
    pub open spec fn spec_max_weight(self) -> u64 {
        if self.queen >= self.worker && self.queen >= self.drone {
            self.queen
        } else if self.worker >= self.drone {
            self.worker
        } else {
            self.drone
        }
    }

    /// The weight the table assigns to one item type.
    pub open spec fn spec_weight_of(self, t: ItemType) -> u64 {
        match t {
            ItemType::Queen => self.queen,
            ItemType::Worker => self.worker,
            ItemType::Drone => self.drone,
        }
    }

    /// Looks up the weight of one item type.
    pub fn weight_of(&self, t: ItemType) -> (w: u64)
        ensures
            w == self.spec_weight_of(t),
    {
        match t {
            ItemType::Queen => self.queen,
            ItemType::Worker => self.worker,
            ItemType::Drone => self.drone,
        }
    }

    /// The standard weight schedule: queens 50, workers 30, drones 20.
    pub fn standard() -> (t: ItemWeightTable)
        ensures
            t == (ItemWeightTable { queen: 50u64, worker: 30u64, drone: 20u64 }),
            t.wf(),
    {
        ItemWeightTable { queen: 50, worker: 30, drone: 20 }
    }
}

/// The display name of a classified type.
pub open spec fn spec_type_label(t: ItemType) -> Seq<char> {
    match t {
        ItemType::Queen => "Queen"@,
        ItemType::Worker => "Worker"@,
        ItemType::Drone => "Drone"@,
    }
}

/// Renders a classified type as its display name.
pub fn type_label(t: ItemType) -> (s: String)
    ensures
        s@ == spec_type_label(t),
{
    match t {
        ItemType::Queen => "Queen".to_owned(),
        ItemType::Worker => "Worker".to_owned(),
        ItemType::Drone => "Drone".to_owned(),
    }
}

} // verus!
