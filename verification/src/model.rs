use vstd::prelude::*;

use crate::errors::InventoryError;
use crate::items::{ProductView, PurchaseView, SaleView};

verus! {

/// One product group: every product in `products` carries `name`, in the
/// order the products were added.
#[verifier::ext_equal]
pub struct GroupView {
    pub name: Seq<char>,
    pub products: Seq<ProductView>,
}

/// The mathematical state of the whole ledger: the product groups in the
/// order they were created, and the two append-only logs.
#[verifier::ext_equal]
pub struct LedgerView {
    pub groups: Seq<GroupView>,
    pub sales: Seq<SaleView>,
    pub purchases: Seq<PurchaseView>,
}

/// The ledger with no products and empty logs.
pub open spec fn empty_ledger() -> LedgerView {
    LedgerView { groups: Seq::empty(), sales: Seq::empty(), purchases: Seq::empty() }
}

/// Index of the first group named `name`, or -1 when there is none.
pub open spec fn group_idx(gs: Seq<GroupView>, name: Seq<char>) -> int
    decreases gs.len(),
{
    if gs.len() == 0 {
        -1
    } else if gs[0].name == name {
        0
    } else {
        let r = group_idx(gs.subrange(1, gs.len() as int), name);
        if r < 0 {
            -1
        } else {
            r + 1
        }
    }
}

/// Index of the first product in `ps` with the given id, or -1 when there
/// is none. Ids may repeat inside a group; the first match is the one
/// every operation resolves to.
pub open spec fn product_idx(ps: Seq<ProductView>, id: u32) -> int
    decreases ps.len(),
{
    if ps.len() == 0 {
        -1
    } else if ps[0].id == id {
        0
    } else {
        let r = product_idx(ps.subrange(1, ps.len() as int), id);
        if r < 0 {
            -1
        } else {
            r + 1
        }
    }
}

/// Whether some group is named `name`.
pub open spec fn has_group(v: LedgerView, name: Seq<char>) -> bool {
    group_idx(v.groups, name) >= 0
}

/// The products of the group named `name`, or the empty sequence when
/// there is no such group.
pub open spec fn group_products(v: LedgerView, name: Seq<char>) -> Seq<ProductView> {
    if has_group(v, name) {
        v.groups[group_idx(v.groups, name)].products
    } else {
        Seq::empty()
    }
}

/// Whether the group named `name` exists and holds a product with `id`.
pub open spec fn has_product(v: LedgerView, name: Seq<char>, id: u32) -> bool {
    has_group(v, name) && product_idx(group_products(v, name), id) >= 0
}

/// The first product with `id` in the group named `name`.
pub open spec fn product_at(v: LedgerView, name: Seq<char>, id: u32) -> ProductView
    recommends
        has_product(v, name, id),
{
    group_products(v, name)[product_idx(group_products(v, name), id)]
}

/// How the lookup shared by delete, edit, sale and purchase resolves:
/// `NotFoundName` when no group carries `name`, `NotFoundId` when the
/// group holds no product with `id`, `Ok` otherwise.
pub open spec fn spec_lookup(v: LedgerView, name: Seq<char>, id: u32) -> Result<
    (),
    InventoryError,
> {
    if !has_group(v, name) {
        Err(InventoryError::NotFoundName)
    } else if product_idx(group_products(v, name), id) < 0 {
        Err(InventoryError::NotFoundId)
    } else {
        Ok(())
    }
}

/// The state after adding `p`: appended to the first group named after it,
/// or placed in a fresh group at the end. Adding always succeeds.
pub open spec fn spec_add(v: LedgerView, p: ProductView) -> LedgerView {
    let gi = group_idx(v.groups, p.name);
    if gi >= 0 {
        LedgerView {
            groups: v.groups.update(
                gi,
                GroupView { name: v.groups[gi].name, products: v.groups[gi].products.push(p) },
            ),
            ..v
        }
    } else {
        LedgerView { groups: v.groups.push(GroupView { name: p.name, products: seq![p] }), ..v }
    }
}

/// The state after deleting the first product with `id` from the group
/// named `name`; the group itself goes away when it becomes empty. A
/// failed lookup leaves the state unchanged.
pub open spec fn spec_delete(v: LedgerView, name: Seq<char>, id: u32) -> LedgerView {
    if spec_lookup(v, name, id) is Ok {
        let gi = group_idx(v.groups, name);
        let ps = v.groups[gi].products;
        let rest = ps.remove(product_idx(ps, id));
        if rest.len() == 0 {
            LedgerView { groups: v.groups.remove(gi), ..v }
        } else {
            LedgerView {
                groups: v.groups.update(gi, GroupView { name: v.groups[gi].name, products: rest }),
                ..v
            }
        }
    } else {
        v
    }
}

/// The state after editing: price and quantity of the first product with
/// `id` are overwritten, not adjusted. A failed lookup leaves the state
/// unchanged.
pub open spec fn spec_edit(
    v: LedgerView,
    name: Seq<char>,
    id: u32,
    new_price: u32,
    new_quantity: u32,
) -> LedgerView {
    if spec_lookup(v, name, id) is Ok {
        let gi = group_idx(v.groups, name);
        let ps = v.groups[gi].products;
        let pi = product_idx(ps, id);
        let p = ProductView { price: new_price, quantity: new_quantity, ..ps[pi] };
        LedgerView {
            groups: v.groups.update(
                gi,
                GroupView { name: v.groups[gi].name, products: ps.update(pi, p) },
            ),
            ..v
        }
    } else {
        v
    }
}

/// The exact total of a sale or purchase: quantity times unit price,
/// computed without rounding or overflow.
pub open spec fn line_total(qty: u32, price: u32) -> u64 {
    (qty * price) as u64
}

/// How a sale resolves: the shared lookup first, then `InsufficientStock`
/// when more units are asked for than are in stock.
pub open spec fn spec_sale_res(v: LedgerView, name: Seq<char>, id: u32, qty: u32) -> Result<
    (),
    InventoryError,
> {
    match spec_lookup(v, name, id) {
        Err(e) => Err(e),
        Ok(_) => {
            if qty > product_at(v, name, id).quantity {
                Err(InventoryError::InsufficientStock)
            } else {
                Ok(())
            }
        },
    }
}

/// The state after a sale: stock decremented by the quantity sold and one
/// record appended to the sales log, both in the same step. A failed sale
/// changes nothing.
pub open spec fn spec_sale(
    v: LedgerView,
    name: Seq<char>,
    id: u32,
    qty: u32,
    price: u32,
) -> LedgerView {
    if spec_sale_res(v, name, id, qty) is Ok {
        let gi = group_idx(v.groups, name);
        let ps = v.groups[gi].products;
        let pi = product_idx(ps, id);
        let p = ProductView { quantity: (ps[pi].quantity - qty) as u32, ..ps[pi] };
        LedgerView {
            groups: v.groups.update(
                gi,
                GroupView { name: v.groups[gi].name, products: ps.update(pi, p) },
            ),
            sales: v.sales.push(
                SaleView {
                    product_id: id,
                    product_name: name,
                    quantity_sold: qty,
                    sale_price: price,
                    total_price: line_total(qty, price),
                },
            ),
            purchases: v.purchases,
        }
    } else {
        v
    }
}

/// Machine limit on a purchase: the increased stock must still fit the
/// quantity field. Nothing else bounds a purchase.
pub open spec fn purchase_fits(v: LedgerView, name: Seq<char>, id: u32, qty: u32) -> bool {
    has_product(v, name, id) ==> product_at(v, name, id).quantity + qty <= u32::MAX
}

/// The state after a purchase: stock incremented unconditionally and one
/// record appended to the purchase log. A failed lookup changes nothing.
pub open spec fn spec_purchase(
    v: LedgerView,
    name: Seq<char>,
    id: u32,
    qty: u32,
    price: u32,
) -> LedgerView {
    if spec_lookup(v, name, id) is Ok {
        let gi = group_idx(v.groups, name);
        let ps = v.groups[gi].products;
        let pi = product_idx(ps, id);
        let p = ProductView { quantity: (ps[pi].quantity + qty) as u32, ..ps[pi] };
        LedgerView {
            groups: v.groups.update(
                gi,
                GroupView { name: v.groups[gi].name, products: ps.update(pi, p) },
            ),
            sales: v.sales,
            purchases: v.purchases.push(
                PurchaseView {
                    product_id: id,
                    product_name: name,
                    quantity_purchase: qty,
                    buy_price: price,
                    total_price: line_total(qty, price),
                },
            ),
        }
    } else {
        v
    }
}

/// Every product of every group, groups in creation order.
pub open spec fn all_products(gs: Seq<GroupView>) -> Seq<ProductView>
    decreases gs.len(),
{
    if gs.len() == 0 {
        Seq::empty()
    } else {
        gs[0].products + all_products(gs.subrange(1, gs.len() as int))
    }
}

/// The structural invariant of the group sequence: no name twice, and an
/// empty group never lingers.
pub open spec fn groups_inv(gs: Seq<GroupView>) -> bool {
    &&& forall|i: int, j: int| 0 <= i < j < gs.len() ==> gs[i].name != gs[j].name
    &&& forall|i: int| 0 <= i < gs.len() ==> gs[i].products.len() > 0
}

/// The structural invariant of a reachable ledger state: the groups form
/// a mapping, as stated by [`groups_inv`].
pub open spec fn ledger_inv(v: LedgerView) -> bool {
    groups_inv(v.groups)
}

/// What `group_idx` finds: an in-range index whose group carries the name
/// and before which no group does, or -1 exactly when no group does.
pub proof fn lemma_group_idx_props(gs: Seq<GroupView>, name: Seq<char>)
    ensures
        group_idx(gs, name) == -1 || 0 <= group_idx(gs, name) < gs.len(),
        group_idx(gs, name) >= 0 ==> gs[group_idx(gs, name)].name == name,
        group_idx(gs, name) < 0 ==> (forall|j: int| 0 <= j < gs.len() ==> gs[j].name != name),
        forall|j: int| 0 <= j < group_idx(gs, name) ==> gs[j].name != name,
    decreases gs.len(),
{
    if gs.len() == 0 {
    } else if gs[0].name == name {
    } else {
        let tail = gs.subrange(1, gs.len() as int);
        lemma_group_idx_props(tail, name);
        let r = group_idx(tail, name);
        if r < 0 {
            assert forall|j: int| 0 <= j < gs.len() implies gs[j].name != name by {
                if j >= 1 {
                    assert(tail[j - 1] == gs[j]);
                }
            }
        } else {
            assert(gs[r + 1] == tail[r]);
            assert forall|j: int| 0 <= j < r + 1 implies gs[j].name != name by {
                if j >= 1 {
                    assert(tail[j - 1] == gs[j]);
                }
            }
        }
    }
}

/// `group_idx` returns exactly the first matching index.
pub proof fn lemma_group_idx_is_first(gs: Seq<GroupView>, name: Seq<char>, i: int)
    requires
        0 <= i < gs.len(),
        gs[i].name == name,
        forall|j: int| 0 <= j < i ==> gs[j].name != name,
    ensures
        group_idx(gs, name) == i,
    decreases gs.len(),
{
    if i == 0 {
    } else {
        let tail = gs.subrange(1, gs.len() as int);
        assert(tail[i - 1] == gs[i]);
        assert forall|j: int| 0 <= j < i - 1 implies tail[j].name != name by {
            assert(tail[j] == gs[j + 1]);
        }
        lemma_group_idx_is_first(tail, name, i - 1);
    }
}

/// What `product_idx` finds, in the same shape as [`lemma_group_idx_props`].
pub proof fn lemma_product_idx_props(ps: Seq<ProductView>, id: u32)
    ensures
        product_idx(ps, id) == -1 || 0 <= product_idx(ps, id) < ps.len(),
        product_idx(ps, id) >= 0 ==> ps[product_idx(ps, id)].id == id,
        product_idx(ps, id) < 0 ==> (forall|j: int| 0 <= j < ps.len() ==> ps[j].id != id),
        forall|j: int| 0 <= j < product_idx(ps, id) ==> ps[j].id != id,
    decreases ps.len(),
{
    if ps.len() == 0 {
    } else if ps[0].id == id {
    } else {
        let tail = ps.subrange(1, ps.len() as int);
        lemma_product_idx_props(tail, id);
        let r = product_idx(tail, id);
        if r < 0 {
            assert forall|j: int| 0 <= j < ps.len() implies ps[j].id != id by {
                if j >= 1 {
                    assert(tail[j - 1] == ps[j]);
                }
            }
        } else {
            assert(ps[r + 1] == tail[r]);
            assert forall|j: int| 0 <= j < r + 1 implies ps[j].id != id by {
                if j >= 1 {
                    assert(tail[j - 1] == ps[j]);
                }
            }
        }
    }
}

/// `product_idx` returns exactly the first matching index.
pub proof fn lemma_product_idx_is_first(ps: Seq<ProductView>, id: u32, i: int)
    requires
        0 <= i < ps.len(),
        ps[i].id == id,
        forall|j: int| 0 <= j < i ==> ps[j].id != id,
    ensures
        product_idx(ps, id) == i,
    decreases ps.len(),
{
    if i == 0 {
    } else {
        let tail = ps.subrange(1, ps.len() as int);
        assert(tail[i - 1] == ps[i]);
        assert forall|j: int| 0 <= j < i - 1 implies tail[j].id != id by {
            assert(tail[j] == ps[j + 1]);
        }
        lemma_product_idx_is_first(tail, id, i - 1);
    }
}

/// The product of two quantities that fit in 32 bits always fits in 64
/// bits, so a line total is exact.
pub proof fn lemma_line_total_exact(qty: u32, price: u32)
    ensures
        line_total(qty, price) == qty * price,
        qty * price <= u64::MAX,
{
    assert(qty * price <= 0xffff_ffff * 0xffff_ffff) by (nonlinear_arith)
        requires
            qty <= 0xffff_ffffu32,
            price <= 0xffff_ffffu32,
    ;
}

/// Appending a group appends its products to the flattened enumeration.
pub proof fn lemma_all_products_push(gs: Seq<GroupView>, g: GroupView)
    ensures
        all_products(gs.push(g)) == all_products(gs) + g.products,
    decreases gs.len(),
{
    let s = gs.push(g);
    if gs.len() == 0 {
        assert(s.subrange(1, s.len() as int) =~= Seq::<GroupView>::empty());
        assert(s[0] == g);
        assert(all_products(s) == g.products + all_products(Seq::empty()));
        assert(all_products(Seq::<GroupView>::empty()) =~= Seq::<ProductView>::empty());
        assert(g.products + Seq::<ProductView>::empty() =~= g.products);
        assert(all_products(gs) =~= Seq::<ProductView>::empty());
        assert(all_products(gs) + g.products =~= g.products);
    } else {
        let tail = gs.subrange(1, gs.len() as int);
        assert(s.subrange(1, s.len() as int) =~= tail.push(g));
        lemma_all_products_push(tail, g);
        assert(s[0] == gs[0]);
        assert(gs[0].products + (all_products(tail) + g.products) =~= (gs[0].products
            + all_products(tail)) + g.products);
    }
}

/// Replacing the products of one group, under its own name and with at
/// least one product left, keeps the group invariant.
pub proof fn lemma_groups_inv_update(gs: Seq<GroupView>, gi: int, ps: Seq<ProductView>)
    requires
        groups_inv(gs),
        0 <= gi < gs.len(),
        ps.len() > 0,
    ensures
        groups_inv(gs.update(gi, GroupView { name: gs[gi].name, products: ps })),
{
}

/// Removing a group keeps the group invariant.
pub proof fn lemma_groups_inv_remove(gs: Seq<GroupView>, gi: int)
    requires
        groups_inv(gs),
        0 <= gi < gs.len(),
    ensures
        groups_inv(gs.remove(gi)),
{
    gs.remove_ensures(gi);
    let s = gs.remove(gi);
    assert forall|i: int, j: int| 0 <= i < j < s.len() implies s[i].name != s[j].name by {
        let i0 = if i < gi { i } else { i + 1 };
        let j0 = if j < gi { j } else { j + 1 };
        assert(s[i] == gs[i0]);
        assert(s[j] == gs[j0]);
    }
    assert forall|i: int| 0 <= i < s.len() implies s[i].products.len() > 0 by {
        let i0 = if i < gi { i } else { i + 1 };
        assert(s[i] == gs[i0]);
    }
}

/// Appending a group under a fresh name, with at least one product, keeps
/// the group invariant.
pub proof fn lemma_groups_inv_push(gs: Seq<GroupView>, g: GroupView)
    requires
        groups_inv(gs),
        g.products.len() > 0,
        forall|i: int| 0 <= i < gs.len() ==> gs[i].name != g.name,
    ensures
        groups_inv(gs.push(g)),
{
}

/// Adding a product preserves the ledger invariant.
pub proof fn lemma_add_preserves_inv(v: LedgerView, p: ProductView)
    requires
        ledger_inv(v),
    ensures
        ledger_inv(spec_add(v, p)),
{
    lemma_group_idx_props(v.groups, p.name);
    let gi = group_idx(v.groups, p.name);
    if gi >= 0 {
        lemma_groups_inv_update(v.groups, gi, v.groups[gi].products.push(p));
    } else {
        lemma_groups_inv_push(v.groups, GroupView { name: p.name, products: seq![p] });
    }
}

/// Deleting a product preserves the ledger invariant.
pub proof fn lemma_delete_preserves_inv(v: LedgerView, name: Seq<char>, id: u32)
    requires
        ledger_inv(v),
    ensures
        ledger_inv(spec_delete(v, name, id)),
{
    if spec_lookup(v, name, id) is Ok {
        lemma_group_idx_props(v.groups, name);
        let gi = group_idx(v.groups, name);
        let ps = v.groups[gi].products;
        lemma_product_idx_props(ps, id);
        let rest = ps.remove(product_idx(ps, id));
        if rest.len() == 0 {
            lemma_groups_inv_remove(v.groups, gi);
        } else {
            lemma_groups_inv_update(v.groups, gi, rest);
        }
    }
}

/// Editing a product preserves the ledger invariant.
pub proof fn lemma_edit_preserves_inv(
    v: LedgerView,
    name: Seq<char>,
    id: u32,
    new_price: u32,
    new_quantity: u32,
)
    requires
        ledger_inv(v),
    ensures
        ledger_inv(spec_edit(v, name, id, new_price, new_quantity)),
{
    if spec_lookup(v, name, id) is Ok {
        lemma_group_idx_props(v.groups, name);
        let gi = group_idx(v.groups, name);
        let ps = v.groups[gi].products;
        lemma_product_idx_props(ps, id);
        let pi = product_idx(ps, id);
        let p = ProductView { price: new_price, quantity: new_quantity, ..ps[pi] };
        lemma_groups_inv_update(v.groups, gi, ps.update(pi, p));
    }
}

/// Recording a sale preserves the ledger invariant.
pub proof fn lemma_sale_preserves_inv(
    v: LedgerView,
    name: Seq<char>,
    id: u32,
    qty: u32,
    price: u32,
)
    requires
        ledger_inv(v),
    ensures
        ledger_inv(spec_sale(v, name, id, qty, price)),
{
    if spec_sale_res(v, name, id, qty) is Ok {
        lemma_group_idx_props(v.groups, name);
        let gi = group_idx(v.groups, name);
        let ps = v.groups[gi].products;
        lemma_product_idx_props(ps, id);
        let pi = product_idx(ps, id);
        let p = ProductView { quantity: (ps[pi].quantity - qty) as u32, ..ps[pi] };
        lemma_groups_inv_update(v.groups, gi, ps.update(pi, p));
    }
}

/// Recording a purchase preserves the ledger invariant.
pub proof fn lemma_purchase_preserves_inv(
    v: LedgerView,
    name: Seq<char>,
    id: u32,
    qty: u32,
    price: u32,
)
    requires
        ledger_inv(v),
    ensures
        ledger_inv(spec_purchase(v, name, id, qty, price)),
{
    if spec_lookup(v, name, id) is Ok {
        lemma_group_idx_props(v.groups, name);
        let gi = group_idx(v.groups, name);
        let ps = v.groups[gi].products;
        lemma_product_idx_props(ps, id);
        let pi = product_idx(ps, id);
        let p = ProductView { quantity: (ps[pi].quantity + qty) as u32, ..ps[pi] };
        lemma_groups_inv_update(v.groups, gi, ps.update(pi, p));
    }
}

} // verus!
