use vstd::prelude::*;

use crate::errors::InventoryError;
use crate::items::{Product, ProductView, Purchase, PurchaseView, Sale, SaleView};
use crate::model::{
    all_products, empty_ledger, group_idx, ledger_inv, lemma_add_preserves_inv,
    lemma_all_products_push, lemma_delete_preserves_inv, lemma_edit_preserves_inv,
    lemma_group_idx_is_first, lemma_group_idx_props, lemma_line_total_exact,
    lemma_product_idx_is_first, lemma_product_idx_props, lemma_purchase_preserves_inv,
    lemma_sale_preserves_inv, has_product, product_at, product_idx, purchase_fits, spec_add,
    spec_delete, spec_edit, spec_lookup, spec_purchase, spec_sale, spec_sale_res, GroupView,
    LedgerView,
};

verus! {

/// The products of a `Vec`, as their mathematical values.
pub open spec fn products_view(s: Seq<Product>) -> Seq<ProductView> {
    s.map_values(|p: Product| p@)
}

/// The groups of a `Vec`, as their mathematical values.
pub open spec fn groups_view(s: Seq<Group>) -> Seq<GroupView> {
    s.map_values(|g: Group| g@)
}

/// The sales of a `Vec`, as their mathematical values.
pub open spec fn sales_view(s: Seq<Sale>) -> Seq<SaleView> {
    s.map_values(|x: Sale| x@)
}

/// The purchases of a `Vec`, as their mathematical values.
pub open spec fn purchases_view(s: Seq<Purchase>) -> Seq<PurchaseView> {
    s.map_values(|x: Purchase| x@)
}

/// A name and the products added under it, in insertion order.
pub struct Group {
    pub name: String,
    pub products: Vec<Product>,
}

impl View for Group {
    type V = GroupView;

    open spec fn view(&self) -> GroupView {
        GroupView { name: self.name@, products: products_view(self.products@) }
    }
}

/// The inventory ledger: product groups keyed by name, and the two
/// append-only logs. Its behaviour is specified entirely through the
/// transitions of [`crate::model`] on its [`LedgerView`].
pub struct Inventory {
    groups: Vec<Group>,
    sales: Vec<Sale>,
    purchases: Vec<Purchase>,
}

impl View for Inventory {
    type V = LedgerView;

    closed spec fn view(&self) -> LedgerView {
        LedgerView {
            groups: groups_view(self.groups@),
            sales: sales_view(self.sales@),
            purchases: purchases_view(self.purchases@),
        }
    }
}

proof fn lemma_products_view_remove(s: Seq<Product>, i: int)
    requires
        0 <= i < s.len(),
    ensures
        products_view(s.remove(i)) == products_view(s).remove(i),
{
    s.remove_ensures(i);
    products_view(s).remove_ensures(i);
    assert(products_view(s.remove(i)) =~= products_view(s).remove(i));
}

proof fn lemma_products_view_update_except(s: Seq<Product>, s2: Seq<Product>, i: int)
    requires
        0 <= i < s.len(),
        s2.len() == s.len(),
        forall|j: int| 0 <= j < s.len() && j != i ==> s2[j] == s[j],
    ensures
        products_view(s2) == products_view(s).update(i, s2[i]@),
{
    assert(products_view(s2) =~= products_view(s).update(i, s2[i]@));
}

proof fn lemma_groups_view_remove(s: Seq<Group>, i: int)
    requires
        0 <= i < s.len(),
    ensures
        groups_view(s.remove(i)) == groups_view(s).remove(i),
{
    s.remove_ensures(i);
    groups_view(s).remove_ensures(i);
    assert(groups_view(s.remove(i)) =~= groups_view(s).remove(i));
}

proof fn lemma_groups_view_update_except(s: Seq<Group>, s2: Seq<Group>, i: int)
    requires
        0 <= i < s.len(),
        s2.len() == s.len(),
        forall|j: int| 0 <= j < s.len() && j != i ==> s2[j] == s[j],
    ensures
        groups_view(s2) == groups_view(s).update(i, s2[i]@),
{
    assert(groups_view(s2) =~= groups_view(s).update(i, s2[i]@));
}

/// Index of the first product with `id`, scanning front to back.
fn find_product(ps: &Vec<Product>, id: u32) -> (r: Option<usize>)
    ensures
        match r {
            Some(i) => i < ps@.len() && i as int == product_idx(products_view(ps@), id),
            None => product_idx(products_view(ps@), id) == -1,
        },
{
    let mut i: usize = 0;
    while i < ps.len()
        invariant
            i <= ps@.len(),
            forall|j: int| 0 <= j < i ==> products_view(ps@)[j].id != id,
        decreases ps@.len() - i,
    {
        if ps[i].id == id {
            proof {
                lemma_product_idx_is_first(products_view(ps@), id, i as int);
            }
            return Some(i);
        }
        i += 1;
    }
    proof {
        lemma_product_idx_props(products_view(ps@), id);
    }
    None
}

impl Inventory {
    /// The structural invariant of the ledger, established by [`Inventory::new`]
    /// and preserved by every operation.
    pub open spec fn inv(&self) -> bool {
        ledger_inv(self@)
    }

    /// A fresh ledger with no products and empty logs.
    pub fn new() -> (r: Inventory)
        ensures
            r@ == empty_ledger(),
            r.inv(),
    {
        let r = Inventory { groups: Vec::new(), sales: Vec::new(), purchases: Vec::new() };
        proof {
            assert(r@ =~~= empty_ledger());
        }
        r
    }

    /// Index of the first group named `key`, scanning front to back.
    fn find_group(&self, key: &String) -> (r: Option<usize>)
        ensures
            match r {
                Some(i) => i < self@.groups.len() && i as int == group_idx(self@.groups, key@),
                None => group_idx(self@.groups, key@) == -1,
            },
    {
        let mut i: usize = 0;
        while i < self.groups.len()
            invariant
                i <= self@.groups.len(),
                forall|j: int| 0 <= j < i ==> self@.groups[j].name != key@,
            decreases self@.groups.len() - i,
        {
            if self.groups[i].name == *key {
                proof {
                    lemma_group_idx_is_first(self@.groups, key@, i as int);
                }
                return Some(i);
            }
            i += 1;
        }
        proof {
            lemma_group_idx_props(self@.groups, key@);
        }
        None
    }

    /// Appends `product` to the group carrying its name, creating the
    /// group when there is none. Adding always succeeds.
    pub fn add_product(&mut self, product: Product) -> (r: Result<(), InventoryError>)
        ensures
            r is Ok,
            final(self)@ == spec_add(old(self)@, product@),
            old(self).inv() ==> final(self).inv(),
    {
        let ghost pv = product@;
        let found = self.find_group(&product.name);
        match found {
            Some(gi) => {
                let ghost base = self.groups@;
                let mut g = self.groups.remove(gi);
                let ghost pbase = g.products@;
                g.products.push(product);
                let ghost gv = g@;
                self.groups.insert(gi, g);
                proof {
                    base.remove_ensures(gi as int);
                    assert(self.groups@.len() == base.len());
                    assert(forall|j: int|
                        0 <= j < base.len() && j != gi ==> self.groups@[j] == base[j]);
                    assert(self.groups@[gi as int]@ == gv);
                    lemma_groups_view_update_except(base, self.groups@, gi as int);
                    assert(gv.products =~= old(self)@.groups[gi as int].products.push(pv));
                    assert(self@ =~~= spec_add(old(self)@, pv));
                }
            },
            None => {
                let key = product.name.clone();
                let mut ps: Vec<Product> = Vec::new();
                ps.push(product);
                let g = Group { name: key, products: ps };
                let ghost gv = g@;
                self.groups.push(g);
                proof {
                    lemma_group_idx_props(old(self)@.groups, pv.name);
                    assert(gv.products =~= seq![pv]);
                    assert(groups_view(self.groups@) =~= groups_view(old(self).groups@).push(gv));
                    assert(self@ =~~= spec_add(old(self)@, pv));
                }
            },
        }
        proof {
            if old(self).inv() {
                lemma_add_preserves_inv(old(self)@, product@);
            }
        }
        Ok(())
    }

    /// Removes the first product with `id` from the group named `name`;
    /// a group left empty is removed with it.
    pub fn delete_product(&mut self, name: &str, id: u32) -> (r: Result<(), InventoryError>)
        ensures
            r == spec_lookup(old(self)@, name@, id),
            final(self)@ == spec_delete(old(self)@, name@, id),
            old(self).inv() ==> final(self).inv(),
    {
        let key: String = name.to_owned();
        let gi = match self.find_group(&key) {
            Some(i) => i,
            None => {
                return Err(InventoryError::NotFoundName);
            },
        };
        let pi = match find_product(&self.groups[gi].products, id) {
            Some(i) => i,
            None => {
                return Err(InventoryError::NotFoundId);
            },
        };
        let ghost base = self.groups@;
        let mut g = self.groups.remove(gi);
        let ghost pbase = g.products@;
        g.products.remove(pi);
        proof {
            lemma_products_view_remove(pbase, pi as int);
        }
        if g.products.len() > 0 {
            let ghost gv = g@;
            self.groups.insert(gi, g);
            proof {
                base.remove_ensures(gi as int);
                assert(self.groups@.len() == base.len());
                assert(forall|j: int| 0 <= j < base.len() && j != gi ==> self.groups@[j] == base[j]);
                assert(self.groups@[gi as int]@ == gv);
                lemma_groups_view_update_except(base, self.groups@, gi as int);
                assert(self@ =~~= spec_delete(old(self)@, name@, id));
            }
        } else {
            proof {
                lemma_groups_view_remove(base, gi as int);
                assert(self@ =~~= spec_delete(old(self)@, name@, id));
            }
        }
        proof {
            if old(self).inv() {
                lemma_delete_preserves_inv(old(self)@, name@, id);
            }
        }
        Ok(())
    }

    /// Overwrites — never adjusts — the price and quantity of the first
    /// product with `id` in the group named `name`.
    pub fn edit_product(
        &mut self,
        name: &str,
        id: u32,
        new_price: u32,
        new_quantity: u32,
    ) -> (r: Result<(), InventoryError>)
        ensures
            r == spec_lookup(old(self)@, name@, id),
            final(self)@ == spec_edit(old(self)@, name@, id, new_price, new_quantity),
            old(self).inv() ==> final(self).inv(),
    {
        let key: String = name.to_owned();
        let gi = match self.find_group(&key) {
            Some(i) => i,
            None => {
                return Err(InventoryError::NotFoundName);
            },
        };
        let pi = match find_product(&self.groups[gi].products, id) {
            Some(i) => i,
            None => {
                return Err(InventoryError::NotFoundId);
            },
        };
        let ghost base = self.groups@;
        let mut g = self.groups.remove(gi);
        let ghost pbase = g.products@;
        let mut p = g.products.remove(pi);
        p.price = new_price;
        p.quantity = new_quantity;
        let ghost pv2 = p@;
        g.products.insert(pi, p);
        proof {
            pbase.remove_ensures(pi as int);
            assert(g.products@.len() == pbase.len());
            assert(forall|j: int| 0 <= j < pbase.len() && j != pi ==> g.products@[j] == pbase[j]);
            assert(g.products@[pi as int]@ == pv2);
            lemma_products_view_update_except(pbase, g.products@, pi as int);
        }
        let ghost gv = g@;
        self.groups.insert(gi, g);
        proof {
            base.remove_ensures(gi as int);
            assert(self.groups@.len() == base.len());
            assert(forall|j: int| 0 <= j < base.len() && j != gi ==> self.groups@[j] == base[j]);
            assert(self.groups@[gi as int]@ == gv);
            lemma_groups_view_update_except(base, self.groups@, gi as int);
            assert(self@ =~~= spec_edit(old(self)@, name@, id, new_price, new_quantity));
            if old(self).inv() {
                lemma_edit_preserves_inv(old(self)@, name@, id, new_price, new_quantity);
            }
        }
        Ok(())
    }

    /// Decrements stock by the quantity sold and appends one record to
    /// the sales log, in a single step; a sale that asks for more than
    /// the stock fails and changes nothing.
    pub fn record_sale(
        &mut self,
        name: &str,
        id: u32,
        quantity: u32,
        sale_price: u32,
    ) -> (r: Result<(), InventoryError>)
        ensures
            r == spec_sale_res(old(self)@, name@, id, quantity),
            final(self)@ == spec_sale(old(self)@, name@, id, quantity, sale_price),
            old(self).inv() ==> final(self).inv(),
    {
        let key: String = name.to_owned();
        let gi = match self.find_group(&key) {
            Some(i) => i,
            None => {
                return Err(InventoryError::NotFoundName);
            },
        };
        let pi = match find_product(&self.groups[gi].products, id) {
            Some(i) => i,
            None => {
                return Err(InventoryError::NotFoundId);
            },
        };
        if self.groups[gi].products[pi].quantity < quantity {
            return Err(InventoryError::InsufficientStock);
        }
        let ghost base = self.groups@;
        let mut g = self.groups.remove(gi);
        let ghost pbase = g.products@;
        let mut p = g.products.remove(pi);
        p.quantity = p.quantity - quantity;
        let ghost pv2 = p@;
        g.products.insert(pi, p);
        proof {
            pbase.remove_ensures(pi as int);
            assert(g.products@.len() == pbase.len());
            assert(forall|j: int| 0 <= j < pbase.len() && j != pi ==> g.products@[j] == pbase[j]);
            assert(g.products@[pi as int]@ == pv2);
            lemma_products_view_update_except(pbase, g.products@, pi as int);
        }
        let ghost gv = g@;
        self.groups.insert(gi, g);
        proof {
            base.remove_ensures(gi as int);
            assert(self.groups@.len() == base.len());
            assert(forall|j: int| 0 <= j < base.len() && j != gi ==> self.groups@[j] == base[j]);
            assert(self.groups@[gi as int]@ == gv);
            lemma_groups_view_update_except(base, self.groups@, gi as int);
            lemma_line_total_exact(quantity, sale_price);
        }
        let total: u64 = (quantity as u64) * (sale_price as u64);
        let record = Sale {
            product_id: id,
            product_name: key,
            quantity_sold: quantity,
            sale_price: sale_price,
            total_price: total,
        };
        let ghost rv = record@;
        self.sales.push(record);
        proof {
            assert(sales_view(self.sales@) =~= sales_view(old(self).sales@).push(rv));
            assert(self@ =~~= spec_sale(old(self)@, name@, id, quantity, sale_price));
            if old(self).inv() {
                lemma_sale_preserves_inv(old(self)@, name@, id, quantity, sale_price);
            }
        }
        Ok(())
    }

    /// Increments stock by the quantity bought — there is no stock
    /// ceiling — and appends one record to the purchase log.
    pub fn record_purchase(
        &mut self,
        name: &str,
        id: u32,
        quantity: u32,
        buy_price: u32,
    ) -> (r: Result<(), InventoryError>)
        requires
            purchase_fits(old(self)@, name@, id, quantity),
        ensures
            r == spec_lookup(old(self)@, name@, id),
            final(self)@ == spec_purchase(old(self)@, name@, id, quantity, buy_price),
            old(self).inv() ==> final(self).inv(),
    {
        let key: String = name.to_owned();
        let gi = match self.find_group(&key) {
            Some(i) => i,
            None => {
                return Err(InventoryError::NotFoundName);
            },
        };
        let pi = match find_product(&self.groups[gi].products, id) {
            Some(i) => i,
            None => {
                return Err(InventoryError::NotFoundId);
            },
        };
        let ghost base = self.groups@;
        let mut g = self.groups.remove(gi);
        let ghost pbase = g.products@;
        let mut p = g.products.remove(pi);
        p.quantity = p.quantity + quantity;
        let ghost pv2 = p@;
        g.products.insert(pi, p);
        proof {
            pbase.remove_ensures(pi as int);
            assert(g.products@.len() == pbase.len());
            assert(forall|j: int| 0 <= j < pbase.len() && j != pi ==> g.products@[j] == pbase[j]);
            assert(g.products@[pi as int]@ == pv2);
            lemma_products_view_update_except(pbase, g.products@, pi as int);
        }
        let ghost gv = g@;
        self.groups.insert(gi, g);
        proof {
            base.remove_ensures(gi as int);
            assert(self.groups@.len() == base.len());
            assert(forall|j: int| 0 <= j < base.len() && j != gi ==> self.groups@[j] == base[j]);
            assert(self.groups@[gi as int]@ == gv);
            lemma_groups_view_update_except(base, self.groups@, gi as int);
            lemma_line_total_exact(quantity, buy_price);
        }
        let total: u64 = (quantity as u64) * (buy_price as u64);
        let record = Purchase {
            product_id: id,
            product_name: key,
            quantity_purchase: quantity,
            buy_price: buy_price,
            total_price: total,
        };
        let ghost rv = record@;
        self.purchases.push(record);
        proof {
            assert(purchases_view(self.purchases@) =~= purchases_view(old(self).purchases@).push(
                rv,
            ));
            assert(self@ =~~= spec_purchase(old(self)@, name@, id, quantity, buy_price));
            if old(self).inv() {
                lemma_purchase_preserves_inv(old(self)@, name@, id, quantity, buy_price);
            }
        }
        Ok(())
    }

    /// The current stock of the first product with `id` in the group
    /// named `name`, or nothing when the lookup fails.
    pub fn stock_of(&self, name: &str, id: u32) -> (r: Option<u32>)
        ensures
            match r {
                Some(q) => has_product(self@, name@, id) && q == product_at(
                    self@,
                    name@,
                    id,
                ).quantity,
                None => !has_product(self@, name@, id),
            },
    {
        let key: String = name.to_owned();
        match self.find_group(&key) {
            Some(gi) => match find_product(&self.groups[gi].products, id) {
                Some(pi) => Some(self.groups[gi].products[pi].quantity),
                None => None,
            },
            None => None,
        }
    }

    /// Every product of every group, groups in creation order; the order
    /// of groups is an implementation detail, not a promise of the
    /// ledger's interface.
    pub fn list_products(&self) -> (r: Vec<Product>)
        ensures
            products_view(r@) == all_products(self@.groups),
    {
        let mut out: Vec<Product> = Vec::new();
        proof {
            assert(self@.groups.subrange(0, 0) =~= Seq::<GroupView>::empty());
            assert(products_view(out@) =~= all_products(self@.groups.subrange(0, 0)));
        }
        let mut i: usize = 0;
        while i < self.groups.len()
            invariant
                i <= self@.groups.len(),
                products_view(out@) == all_products(self@.groups.subrange(0, i as int)),
            decreases self@.groups.len() - i,
        {
            let mut j: usize = 0;
            proof {
                assert(products_view(self.groups@[i as int].products@.subrange(0, 0))
                    =~= Seq::<ProductView>::empty());
                assert(products_view(out@) + Seq::<ProductView>::empty() =~= products_view(out@));
            }
            while j < self.groups[i].products.len()
                invariant
                    i < self@.groups.len(),
                    j <= self.groups@[i as int].products@.len(),
                    products_view(out@) == all_products(self@.groups.subrange(0, i as int))
                        + products_view(self.groups@[i as int].products@.subrange(0, j as int)),
                decreases self.groups@[i as int].products@.len() - j,
            {
                let c = self.groups[i].products[j].clone();
                let ghost cc = c;
                let ghost obase = out@;
                out.push(c);
                proof {
                    let ps = self.groups@[i as int].products@;
                    let flat = all_products(self@.groups.subrange(0, i as int));
                    assert(ps.subrange(0, j as int + 1) =~= ps.subrange(0, j as int).push(
                        ps[j as int],
                    ));
                    assert(products_view(ps.subrange(0, j as int).push(ps[j as int]))
                        =~= products_view(ps.subrange(0, j as int)).push(ps[j as int]@));
                    assert(out@ =~= obase.push(cc));
                    assert(products_view(obase.push(cc)) =~= products_view(obase).push(cc@));
                    assert(cc@ == ps[j as int]@);
                    assert(flat + products_view(ps.subrange(0, j as int + 1)) =~= (flat
                        + products_view(ps.subrange(0, j as int))).push(ps[j as int]@));
                    assert(products_view(out@) =~= flat + products_view(
                        ps.subrange(0, j as int + 1),
                    ));
                }
                j += 1;
            }
            proof {
                assert(self.groups@[i as int].products@.subrange(
                    0,
                    self.groups@[i as int].products@.len() as int,
                ) =~= self.groups@[i as int].products@);
                lemma_all_products_push(
                    self@.groups.subrange(0, i as int),
                    self@.groups[i as int],
                );
                assert(self@.groups.subrange(0, i as int + 1) =~= self@.groups.subrange(
                    0,
                    i as int,
                ).push(self@.groups[i as int]));
            }
            i += 1;
        }
        proof {
            assert(self@.groups.subrange(0, self@.groups.len() as int) =~= self@.groups);
        }
        out
    }

    /// The groups themselves, for enumeration at the edge.
    pub fn groups(&self) -> (r: &Vec<Group>)
        ensures
            groups_view(r@) == self@.groups,
    {
        &self.groups
    }

    /// The sales log, oldest first.
    pub fn sales(&self) -> (r: &Vec<Sale>)
        ensures
            sales_view(r@) == self@.sales,
    {
        &self.sales
    }

    /// The purchase log, oldest first.
    pub fn purchases(&self) -> (r: &Vec<Purchase>)
        ensures
            purchases_view(r@) == self@.purchases,
    {
        &self.purchases
    }
}

} // verus!
