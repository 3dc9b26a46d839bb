//! The decision logic of a speculative PDF page classifier: the page cursor, the
//! classification context, the constraint pipeline that infers each page's object type,
//! and the classifier state machines that a driver steps through.

pub mod page;
pub mod page_keeper;
pub mod page_lock;
pub mod schema;
pub mod score;
pub mod result_map;
pub mod context;
pub mod constraints;
pub mod inferencer;
pub mod obj_list;
pub mod weighting;
pub mod stream;
pub mod threading;
pub mod classifiers;
