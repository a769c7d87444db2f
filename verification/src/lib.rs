//! SubaruWebQL: the request, VOTable and page logic of the Subaru quick-look web service.

pub mod text;
pub mod dataset;
pub mod votable;
pub mod page;
pub mod cache;
