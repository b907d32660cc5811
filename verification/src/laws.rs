use vstd::prelude::*;

use crate::errors::InventoryError;
use crate::items::ProductView;
use crate::model::{
    all_products, group_idx, group_products, has_group, has_product, ledger_inv,
    lemma_group_idx_is_first, lemma_group_idx_props, lemma_line_total_exact,
    lemma_product_idx_is_first, lemma_product_idx_props, product_at, product_idx, spec_add,
    spec_delete, spec_lookup, spec_purchase, spec_sale, spec_sale_res, GroupView, LedgerView,
};

verus! {

/// Adding two products under one name — whatever their ids — stacks both
/// at the end of that name's group, the earlier one first; a listing of
/// the group after the two additions therefore shows both.
pub proof fn lemma_add_two_same_name(v: LedgerView, p1: ProductView, p2: ProductView)
    requires
        p1.name == p2.name,
    ensures
        has_group(spec_add(spec_add(v, p1), p2), p1.name),
        group_products(spec_add(spec_add(v, p1), p2), p1.name) == group_products(v, p1.name)
            + seq![p1, p2],
{
    let v1 = spec_add(v, p1);
    let v2 = spec_add(v1, p2);
    lemma_group_idx_props(v.groups, p1.name);
    let gi = group_idx(v.groups, p1.name);
    if gi >= 0 {
        lemma_group_idx_is_first(v1.groups, p1.name, gi);
        lemma_group_idx_is_first(v2.groups, p1.name, gi);
        assert(group_products(v2, p1.name) =~= group_products(v, p1.name) + seq![p1, p2]);
    } else {
        let last = v.groups.len() as int;
        lemma_group_idx_is_first(v1.groups, p1.name, last);
        lemma_group_idx_is_first(v2.groups, p1.name, last);
        assert(group_products(v, p1.name) =~= Seq::<ProductView>::empty());
        assert(group_products(v2, p1.name) =~= group_products(v, p1.name) + seq![p1, p2]);
    }
}

/// Every product of every group appears in the flattened listing, so a
/// listing taken after additions shows each product that was added.
pub proof fn lemma_listing_contains_group(gs: Seq<GroupView>, gi: int, pj: int)
    requires
        0 <= gi < gs.len(),
        0 <= pj < gs[gi].products.len(),
    ensures
        exists|k: int|
            0 <= k < all_products(gs).len() && all_products(gs)[k] == gs[gi].products[pj],
    decreases gs.len(),
{
    let tail = gs.subrange(1, gs.len() as int);
    if gi == 0 {
        assert(all_products(gs)[pj] == gs[0].products[pj]);
    } else {
        assert(tail[gi - 1] == gs[gi]);
        lemma_listing_contains_group(tail, gi - 1, pj);
        let k0 = choose|k: int|
            0 <= k < all_products(tail).len() && all_products(tail)[k] == tail[gi - 1].products[pj];
        assert(all_products(gs)[gs[0].products.len() + k0] == all_products(tail)[k0]);
    }
}

/// Deleting the last product of a group removes the group itself: any
/// later lookup under that name — whatever id it asks for — resolves to
/// `NotFoundName`.
pub proof fn lemma_delete_last_removes_group(
    v: LedgerView,
    name: Seq<char>,
    id: u32,
    later_id: u32,
)
    requires
        ledger_inv(v),
        has_group(v, name),
        group_products(v, name).len() == 1,
        group_products(v, name)[0].id == id,
    ensures
        spec_lookup(v, name, id) == Ok::<(), InventoryError>(()),
        !has_group(spec_delete(v, name, id), name),
        spec_lookup(spec_delete(v, name, id), name, later_id) == Err::<(), InventoryError>(
            InventoryError::NotFoundName,
        ),
{
    lemma_group_idx_props(v.groups, name);
    let gi = group_idx(v.groups, name);
    let ps = group_products(v, name);
    lemma_product_idx_is_first(ps, id, 0);
    assert(ps.remove(0) =~= Seq::<ProductView>::empty());
    let w = spec_delete(v, name, id);
    assert(w.groups == v.groups.remove(gi));
    v.groups.remove_ensures(gi);
    assert forall|j: int| 0 <= j < w.groups.len() implies w.groups[j].name != name by {
        let j0 = if j < gi { j } else { j + 1 };
        assert(w.groups[j] == v.groups[j0]);
    }
    lemma_group_idx_props(w.groups, name);
}

/// The stock boundary of a sale: asking for more than the stock fails
/// with `InsufficientStock` and changes nothing, while selling exactly
/// the stock succeeds and leaves the quantity at zero.
pub proof fn lemma_sale_stock_boundary(
    v: LedgerView,
    name: Seq<char>,
    id: u32,
    qty: u32,
    price: u32,
)
    requires
        has_product(v, name, id),
    ensures
        qty > product_at(v, name, id).quantity ==> spec_sale_res(v, name, id, qty) == Err::<
            (),
            InventoryError,
        >(InventoryError::InsufficientStock) && spec_sale(v, name, id, qty, price) == v,
        qty == product_at(v, name, id).quantity ==> spec_sale_res(v, name, id, qty) == Ok::<
            (),
            InventoryError,
        >(()) && has_product(spec_sale(v, name, id, qty, price), name, id) && product_at(
            spec_sale(v, name, id, qty, price),
            name,
            id,
        ).quantity == 0,
{
    lemma_group_idx_props(v.groups, name);
    let gi = group_idx(v.groups, name);
    let ps = group_products(v, name);
    lemma_product_idx_props(ps, id);
    let pi = product_idx(ps, id);
    if qty == product_at(v, name, id).quantity {
        let w = spec_sale(v, name, id, qty, price);
        lemma_group_idx_is_first(w.groups, name, gi);
        lemma_product_idx_is_first(group_products(w, name), id, pi);
    }
}

/// The total of a recorded sale is exactly the quantity sold times the
/// unit price, with no rounding and no overflow.
pub proof fn lemma_sale_total_exact(v: LedgerView, name: Seq<char>, id: u32, qty: u32, price: u32)
    requires
        spec_sale_res(v, name, id, qty) is Ok,
    ensures
        spec_sale(v, name, id, qty, price).sales == v.sales.push(
            spec_sale(v, name, id, qty, price).sales.last(),
        ),
        spec_sale(v, name, id, qty, price).sales.last().quantity_sold == qty,
        spec_sale(v, name, id, qty, price).sales.last().sale_price == price,
        spec_sale(v, name, id, qty, price).sales.last().total_price == qty * price,
{
    lemma_line_total_exact(qty, price);
    assert(spec_sale(v, name, id, qty, price).sales =~= v.sales.push(
        spec_sale(v, name, id, qty, price).sales.last(),
    ));
}

/// The total of a recorded purchase is exactly the quantity bought times
/// the unit price, with no rounding and no overflow.
pub proof fn lemma_purchase_total_exact(
    v: LedgerView,
    name: Seq<char>,
    id: u32,
    qty: u32,
    price: u32,
)
    requires
        spec_lookup(v, name, id) is Ok,
    ensures
        spec_purchase(v, name, id, qty, price).purchases == v.purchases.push(
            spec_purchase(v, name, id, qty, price).purchases.last(),
        ),
        spec_purchase(v, name, id, qty, price).purchases.last().quantity_purchase == qty,
        spec_purchase(v, name, id, qty, price).purchases.last().buy_price == price,
        spec_purchase(v, name, id, qty, price).purchases.last().total_price == qty * price,
{
    lemma_line_total_exact(qty, price);
    assert(spec_purchase(v, name, id, qty, price).purchases =~= v.purchases.push(
        spec_purchase(v, name, id, qty, price).purchases.last(),
    ));
}

/// A sale or purchase against a name that carries no group fails with
/// `NotFoundName` and appends nothing to either log: the state is
/// exactly what it was.
pub proof fn lemma_unknown_name_changes_nothing(
    v: LedgerView,
    name: Seq<char>,
    id: u32,
    qty: u32,
    price: u32,
)
    requires
        !has_group(v, name),
    ensures
        spec_sale_res(v, name, id, qty) == Err::<(), InventoryError>(InventoryError::NotFoundName),
        spec_sale(v, name, id, qty, price) == v,
        spec_lookup(v, name, id) == Err::<(), InventoryError>(InventoryError::NotFoundName),
        spec_purchase(v, name, id, qty, price) == v,
{
}

} // verus!
