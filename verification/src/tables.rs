//! The tables of the TPC-DS benchmark.

use vstd::prelude::*;

verus! {

/// Default number of rows per Arrow record batch.
pub const DEFAULT_BATCH_SIZE: usize = 8000;

/// A TPC-DS table.
#[derive(Clone, Copy, Debug, PartialEq, Eq, Hash, Structural)]
pub enum Table {
    CallCenter,
    CatalogPage,
    CatalogReturns,
    CatalogSales,
    Customer,
    CustomerAddress,
    CustomerDemographics,
    DateDim,
    DbgenVersion,
    HouseholdDemographics,
    IncomeBand,
    Inventory,
    Item,
    Promotion,
    Reason,
    ShipMode,
    Store,
    StoreReturns,
    StoreSales,
    TimeDim,
    Warehouse,
    WebPage,
    WebReturns,
    WebSales,
    WebSite,
}

/// The name of a table, as the benchmark spells it.
pub open spec fn table_name(table: Table) -> Seq<char> {
    match table {
        Table::CallCenter => "call_center"@,
        Table::CatalogPage => "catalog_page"@,
        Table::CatalogReturns => "catalog_returns"@,
        Table::CatalogSales => "catalog_sales"@,
        Table::Customer => "customer"@,
        Table::CustomerAddress => "customer_address"@,
        Table::CustomerDemographics => "customer_demographics"@,
        Table::DateDim => "date_dim"@,
        Table::DbgenVersion => "dbgen_version"@,
        Table::HouseholdDemographics => "household_demographics"@,
        Table::IncomeBand => "income_band"@,
        Table::Inventory => "inventory"@,
        Table::Item => "item"@,
        Table::Promotion => "promotion"@,
        Table::Reason => "reason"@,
        Table::ShipMode => "ship_mode"@,
        Table::Store => "store"@,
        Table::StoreReturns => "store_returns"@,
        Table::StoreSales => "store_sales"@,
        Table::TimeDim => "time_dim"@,
        Table::Warehouse => "warehouse"@,
        Table::WebPage => "web_page"@,
        Table::WebReturns => "web_returns"@,
        Table::WebSales => "web_sales"@,
        Table::WebSite => "web_site"@,
    }
}

impl Table {
    /// The name of this table, as the benchmark spells it.
    pub fn get_name(&self) -> (r: &'static str)
        ensures
            r@ == table_name(*self),
    {
        match self {
            Table::CallCenter => "call_center",
            Table::CatalogPage => "catalog_page",
            Table::CatalogReturns => "catalog_returns",
            Table::CatalogSales => "catalog_sales",
            Table::Customer => "customer",
            Table::CustomerAddress => "customer_address",
            Table::CustomerDemographics => "customer_demographics",
            Table::DateDim => "date_dim",
            Table::DbgenVersion => "dbgen_version",
            Table::HouseholdDemographics => "household_demographics",
            Table::IncomeBand => "income_band",
            Table::Inventory => "inventory",
            Table::Item => "item",
            Table::Promotion => "promotion",
            Table::Reason => "reason",
            Table::ShipMode => "ship_mode",
            Table::Store => "store",
            Table::StoreReturns => "store_returns",
            Table::StoreSales => "store_sales",
            Table::TimeDim => "time_dim",
            Table::Warehouse => "warehouse",
            Table::WebPage => "web_page",
            Table::WebReturns => "web_returns",
            Table::WebSales => "web_sales",
            Table::WebSite => "web_site",
        }
    }
}

} // verus!
