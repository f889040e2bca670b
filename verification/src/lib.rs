//! A generator of syntactically valid, randomly structured mathematical
//! expression strings. A seed non-terminal symbol is rewritten round by
//! round under weighted production rules until only terminal symbols
//! remain, and the terminal sequence is then rendered to text.

pub mod balance;
pub mod expand;
pub mod expr_element;
pub mod measure;
pub mod render;
pub mod weights;

pub use expand::develop_expression;
pub use expand::generate_symbols;
pub use expr_element::ExprElement;
pub use expr_element::choose_argument;
pub use expr_element::choose_function;
pub use expr_element::choose_start;
pub use render::NameWeightTable;
pub use render::OperatorWeightTable;
pub use render::generate_expression;
pub use render::render_terminals;
pub use weights::ArityWeightTable;
pub use weights::GenError;
pub use weights::WeightTable;
pub use weights::choose_from_list_by_weight_table;
