//! The runs of the engine: what each intent checks, decides, plans and
//! reports.

pub mod checked;
pub mod checks;
pub mod entry;
pub mod inspect;
pub mod outcomes;
pub mod package;
pub mod prepare;
pub mod run;
pub mod told;
pub mod transact;
pub mod verify;
