pub mod epoch;
pub mod index;
pub mod iter;
pub mod lariv;
pub mod laws;
pub mod once_cell;
pub mod option;

pub use epoch::{Epoch, LarivEpoch, NoEpoch};
pub use index::LarivIndex;
pub use iter::{IntoIter, Iter, IterMut};
pub use lariv::Lariv;
pub use once_cell::OncePtr;
pub use option::{AtomicOptionTag, Guard, SetGuard};
