//! Reads EPUB publications one chapter at a time: locates the package
//! document, models its manifest, spine and table of contents, resolves
//! links between documents of the archive and renders chapters with their
//! images and stylesheets inlined as data URIs.
pub mod paths;
pub mod xml;
pub mod error;
pub mod codec;
pub mod archive;
pub mod package;
pub mod toc;
pub mod inline;
pub mod epub;
pub mod display;
pub mod percent;
