//! Inventory valuation and sales posting for food-service branches.
//!
//! The library keeps an in-memory image of the tables that a sale touches
//! (specifications, products, bill-of-materials edges, the inventory ledger,
//! transactions and their items) and posts sales into it as all-or-nothing
//! units of work.

mod bom;
mod catalog;
mod config;
mod error;
mod laws;
mod ledger;
mod logger;
mod posting;
mod pricing;
mod records;
mod requests;
mod text;

pub use bom::{
    bom_edges, bom_line_of, bom_lines, cost_fits, cost_of_lines, cost_sum, edge_in_bom, has_product, is_current_product, is_first_active, lemma_first_active_unique,
    lemma_current_product_exists, product_matches, spec_is_active, BomLine, ResolvedProduct,
};
pub use catalog::{
    active_product_name, flow_of, import_size_allowed, MAX_IMPORT_BYTES, has_edge, has_named, imported_row, is_first_edge, is_first_named,
    linked, linked_edge, movement_check, named_count, named_like, named_product_id, only_edges_changed, only_specifications_changed,
    spec_exists, validate_flow_specification_history, MIN_MOVEMENT_PRICE,
};
pub use config::{database_url_of, decimal_text, digit_char, numeral, Config, DatabaseConfig, ServerConfig};
pub use error::{CoreError, Entity, Field};
pub use laws::{
    lemma_bulk_post_prices_from_snapshot, fan_out_row, lemma_fan_out, movement_count, lemma_empty_bom_posts_no_ledger_rows, lemma_failing_sale_aborts_batch, lemma_items_plan_ok,
    lemma_lines_plan_ok, lemma_plans_of_ok, lemma_post_prices_from_snapshot, lemma_unknown_product_aborts,
    lemma_unknown_product_aborts_batch, lines_priced_from, priced_from,
};
pub use ledger::{entry_of, has_history, is_latest, latest_price, lemma_latest_unique};
pub use logger::Logger;
pub use posting::{
    actor_known, actors_known, bulk_plan, bulk_posted, contains_id, item_plan, item_rows, items_plan,
    ledger_rows, line_plan, line_rows, lines_plan, plan_line, plan_lines, plan_view, plans_of, plans_view,
    posted, transaction_plan, ItemPlan, PlannedItem, PlannedLine, RequestCreateTransaction,
    RequestCreateTransactionItem, SYSTEM_ACTOR,
};
pub use pricing::{
    lowest_price, pow10, round_half_even, round_quotient, rounded_quotient, scaled_quotient,
};
pub use records::{
    FlowType, Product, ProductSpecification, Specification, SpecificationHistory, Store, Transaction,
    TransactionItem,
};
pub use requests::{created_row, creation_check, specification_added, Message, RequestCreateUser, RequestFormSpecification, RequestLogin};
pub use text::{contains_seq, contains_text, lower_of, occurs_at, text_equals};
