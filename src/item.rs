//! The item catalog, its prices and its stable codes.

use vstd::prelude::*;

verus! {

/// The fixed catalog of purchasable items.
#[derive(Clone, Copy, Debug, PartialEq, Eq, Structural, Hash)]
pub enum ShopItem {
    DarkMode,
    GayButton,
    DoubleSpeed,
    FiftyFifty,
    Thanos,
}

/// Every catalog item, in the order in which the catalog lists them.
pub open spec fn catalog() -> Seq<ShopItem> {
    seq![
        ShopItem::FiftyFifty,
        ShopItem::DarkMode,
        ShopItem::GayButton,
        ShopItem::DoubleSpeed,
        ShopItem::Thanos,
    ]
}

/// `a` comes before `b` in alphabetical (code point) order, at the first
/// place where they differ.
pub open spec fn alphabetically_before(a: Seq<char>, b: Seq<char>) -> bool {
    exists|i: int|
        0 <= i < a.len() && i < b.len() && a.subrange(0, i) == b.subrange(0, i) && (a[i] as u32) < (
        #[trigger] b[i] as u32)
}

/// The rank of the item names is their alphabetical order.
pub proof fn lemma_name_rank_alphabetical(a: ShopItem, b: ShopItem)
    requires
        a.name_rank() < b.name_rank(),
    ensures
        alphabetically_before(a.spec_name(), b.spec_name()),
{
    reveal_strlit("DarkMode");
    reveal_strlit("GayButton");
    reveal_strlit("DoubleSpeed");
    reveal_strlit("FiftyFifty");
    reveal_strlit("Thanos");
    let x = a.spec_name();
    let y = b.spec_name();
    if a == ShopItem::DarkMode && b == ShopItem::DoubleSpeed {
        assert(x.subrange(0, 1) =~= y.subrange(0, 1));
        assert((x[1] as u32) < (y[1] as u32));
    } else {
        assert(x.subrange(0, 0) =~= y.subrange(0, 0));
        assert((x[0] as u32) < (y[0] as u32));
    }
}

impl ShopItem {
    /// The immutable base price of an item.
    pub open spec fn base_price(self) -> u16 {
        match self {
            ShopItem::DarkMode => 3,
            ShopItem::GayButton => 10,
            ShopItem::DoubleSpeed => 20,
            ShopItem::FiftyFifty => 1,
            ShopItem::Thanos => 50,
        }
    }

    /// What an owned item sells back for: 80% of its base price, truncated.
    pub open spec fn sell_price(self) -> u16 {
        (self.base_price() * 4 / 5) as u16
    }

    /// The effective price of the item for a profile that does or does not own it.
    pub open spec fn effective_price(self, owned: bool) -> u16 {
        if owned {
            self.sell_price()
        } else {
            self.base_price()
        }
    }

    /// The stable one-byte code of an item in the persisted record.
    pub open spec fn spec_code(self) -> u8 {
        match self {
            ShopItem::DarkMode => 1,
            ShopItem::GayButton => 2,
            ShopItem::DoubleSpeed => 3,
            ShopItem::FiftyFifty => 4,
            ShopItem::Thanos => 5,
        }
    }

    /// The item that a one-byte code stands for, if any.
    pub open spec fn spec_from_code(code: u8) -> Option<ShopItem> {
        if code == 1 {
            Some(ShopItem::DarkMode)
        } else if code == 2 {
            Some(ShopItem::GayButton)
        } else if code == 3 {
            Some(ShopItem::DoubleSpeed)
        } else if code == 4 {
            Some(ShopItem::FiftyFifty)
        } else if code == 5 {
            Some(ShopItem::Thanos)
        } else {
            None
        }
    }

    /// The item's display name.
    pub open spec fn spec_name(self) -> Seq<char> {
        match self {
            ShopItem::DarkMode => "DarkMode"@,
            ShopItem::GayButton => "GayButton"@,
            ShopItem::DoubleSpeed => "DoubleSpeed"@,
            ShopItem::FiftyFifty => "FiftyFifty"@,
            ShopItem::Thanos => "Thanos"@,
        }
    }

    /// The position of the item's name in alphabetical order of all names.
    pub open spec fn name_rank(self) -> int {
        match self {
            ShopItem::DarkMode => 0,
            ShopItem::DoubleSpeed => 1,
            ShopItem::FiftyFifty => 2,
            ShopItem::GayButton => 3,
            ShopItem::Thanos => 4,
        }
    }

    pub fn code(&self) -> (r: u8)
        ensures
            r == self.spec_code(),
    {
        match self {
            ShopItem::DarkMode => 1,
            ShopItem::GayButton => 2,
            ShopItem::DoubleSpeed => 3,
            ShopItem::FiftyFifty => 4,
            ShopItem::Thanos => 5,
        }
    }

    pub fn from_code(code: u8) -> (r: Option<ShopItem>)
        ensures
            r == Self::spec_from_code(code),
    {
        if code == 1 {
            Some(ShopItem::DarkMode)
        } else if code == 2 {
            Some(ShopItem::GayButton)
        } else if code == 3 {
            Some(ShopItem::DoubleSpeed)
        } else if code == 4 {
            Some(ShopItem::FiftyFifty)
        } else if code == 5 {
            Some(ShopItem::Thanos)
        } else {
            None
        }
    }

    /// The item's display name, as text.
    pub fn name(&self) -> (r: String)
        ensures
            r@ == self.spec_name(),
    {
        match self {
            ShopItem::DarkMode => String::from_str("DarkMode"),
            ShopItem::GayButton => String::from_str("GayButton"),
            ShopItem::DoubleSpeed => String::from_str("DoubleSpeed"),
            ShopItem::FiftyFifty => String::from_str("FiftyFifty"),
            ShopItem::Thanos => String::from_str("Thanos"),
        }
    }

    pub fn base(&self) -> (r: u16)
        ensures
            r == self.base_price(),
    {
        match self {
            ShopItem::DarkMode => 3,
            ShopItem::GayButton => 10,
            ShopItem::DoubleSpeed => 20,
            ShopItem::FiftyFifty => 1,
            ShopItem::Thanos => 50,
        }
    }

    pub fn rank(&self) -> (r: u64)
        ensures
            r == self.name_rank(),
    {
        match self {
            ShopItem::DarkMode => 0,
            ShopItem::DoubleSpeed => 1,
            ShopItem::FiftyFifty => 2,
            ShopItem::GayButton => 3,
            ShopItem::Thanos => 4,
        }
    }

    /// The catalog item with a display name, if any.
    pub fn parse(name: &String) -> (r: Option<ShopItem>)
        ensures
            r matches Some(it) ==> it.spec_name() == name@,
            r is None ==> forall|it: ShopItem| #[trigger] it.spec_name() != name@,
    {
        let all = [
            ShopItem::DarkMode,
            ShopItem::GayButton,
            ShopItem::DoubleSpeed,
            ShopItem::FiftyFifty,
            ShopItem::Thanos,
        ];
        let mut i: usize = 0;
        while i < 5
            invariant
                i <= 5,
                all@ == seq![
                    ShopItem::DarkMode,
                    ShopItem::GayButton,
                    ShopItem::DoubleSpeed,
                    ShopItem::FiftyFifty,
                    ShopItem::Thanos,
                ],
                forall|j: int| 0 <= j < i ==> (#[trigger] all@[j]).spec_name() != name@,
            decreases 5 - i,
        {
            let candidate = all[i];
            if candidate.name() == *name {
                return Some(candidate);
            }
            i = i + 1;
        }
        assert forall|it: ShopItem| #[trigger] it.spec_name() != name@ by {
            match it {
                ShopItem::DarkMode => assert(all@[0] == it),
                ShopItem::GayButton => assert(all@[1] == it),
                ShopItem::DoubleSpeed => assert(all@[2] == it),
                ShopItem::FiftyFifty => assert(all@[3] == it),
                ShopItem::Thanos => assert(all@[4] == it),
            }
        }
        None
    }

    /// The catalog with the base price of each item.
    pub fn get_prices() -> (r: Vec<(ShopItem, u16)>)
        ensures
            r@.len() == catalog().len(),
            forall|i: int| 0 <= i < r@.len() ==> #[trigger] r@[i] == (catalog()[i], catalog()[i].base_price()),
    {
        let mut prices: Vec<(ShopItem, u16)> = Vec::new();
        prices.push((ShopItem::FiftyFifty, 1));
        prices.push((ShopItem::DarkMode, 3));
        prices.push((ShopItem::GayButton, 10));
        prices.push((ShopItem::DoubleSpeed, 20));
        prices.push((ShopItem::Thanos, 50));
        prices
    }

    /// The price for a profile that does (`owned`) or does not own the item.
    pub fn price_with_sell(&self, owned: bool) -> (r: u16)
        ensures
            r == self.effective_price(owned),
    {
        let price = self.base();
        if owned {
            price * 4 / 5
        } else {
            price
        }
    }
}

} // verus!
