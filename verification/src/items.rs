use vstd::prelude::*;

verus! {

/// A product held in stock. Prices are in whole currency units; the
/// quantity is the current stock and never goes negative.
#[derive(Debug)]
pub struct Product {
    pub id: u32,
    pub name: String,
    pub description: String,
    pub price: u32,
    pub quantity: u32,
}

/// The mathematical value of a [`Product`].
pub struct ProductView {
    pub id: u32,
    pub name: Seq<char>,
    pub description: Seq<char>,
    pub price: u32,
    pub quantity: u32,
}

impl View for Product {
    type V = ProductView;

    open spec fn view(&self) -> ProductView {
        ProductView {
            id: self.id,
            name: self.name@,
            description: self.description@,
            price: self.price,
            quantity: self.quantity,
        }
    }
}

impl Clone for Product {
    fn clone(&self) -> (r: Self)
        ensures
            r == *self,
    {
        Product {
            id: self.id,
            name: self.name.clone(),
            description: self.description.clone(),
            price: self.price,
            quantity: self.quantity,
        }
    }
}

/// One entry of the append-only sales log. The product name is a copy
/// taken at the time of the sale, so a report survives deletion of the
/// product itself.
#[derive(Debug)]
pub struct Sale {
    pub product_id: u32,
    pub product_name: String,
    pub quantity_sold: u32,
    pub sale_price: u32,
    pub total_price: u64,
}

/// The mathematical value of a [`Sale`].
pub struct SaleView {
    pub product_id: u32,
    pub product_name: Seq<char>,
    pub quantity_sold: u32,
    pub sale_price: u32,
    pub total_price: u64,
}

impl View for Sale {
    type V = SaleView;

    open spec fn view(&self) -> SaleView {
        SaleView {
            product_id: self.product_id,
            product_name: self.product_name@,
            quantity_sold: self.quantity_sold,
            sale_price: self.sale_price,
            total_price: self.total_price,
        }
    }
}

/// One entry of the append-only purchase log.
#[derive(Debug)]
pub struct Purchase {
    pub product_id: u32,
    pub product_name: String,
    pub quantity_purchase: u32,
    pub buy_price: u32,
    pub total_price: u64,
}

/// The mathematical value of a [`Purchase`].
pub struct PurchaseView {
    pub product_id: u32,
    pub product_name: Seq<char>,
    pub quantity_purchase: u32,
    pub buy_price: u32,
    pub total_price: u64,
}

impl View for Purchase {
    type V = PurchaseView;

    open spec fn view(&self) -> PurchaseView {
        PurchaseView {
            product_id: self.product_id,
            product_name: self.product_name@,
            quantity_purchase: self.quantity_purchase,
            buy_price: self.buy_price,
            total_price: self.total_price,
        }
    }
}

} // verus!
