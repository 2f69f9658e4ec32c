//! The addresses of the classes and properties that the library works with.
use vstd::prelude::*;

verus! {

// Classes
pub const PROPERTY: &'static str = "https://atomicdata.dev/classes/Property";
pub const AGENT: &'static str = "https://atomicdata.dev/classes/Agent";
pub const COLLECTION: &'static str = "https://atomicdata.dev/classes/Collection";
pub const ENDPOINT: &'static str = "https://atomicdata.dev/classes/Endpoint";
pub const INVITE: &'static str = "https://atomicdata.dev/classes/Invite";
pub const REDIRECT: &'static str = "https://atomicdata.dev/classes/Redirect";
pub const CHATROOM: &'static str = "https://atomicdata.dev/classes/ChatRoom";
pub const MESSAGE: &'static str = "https://atomicdata.dev/classes/Message";
pub const FOLDER: &'static str = "https://atomicdata.dev/classes/Folder";

// Properties of any resource
pub const IS_A: &'static str = "https://atomicdata.dev/properties/isA";
pub const PARENT: &'static str = "https://atomicdata.dev/properties/parent";
pub const LOCAL_ID: &'static str = "https://atomicdata.dev/properties/localId";
pub const NAME: &'static str = "https://atomicdata.dev/properties/name";
pub const SHORTNAME: &'static str = "https://atomicdata.dev/properties/shortname";
pub const FILENAME: &'static str = "https://atomicdata.dev/properties/filename";
pub const DESCRIPTION: &'static str = "https://atomicdata.dev/properties/description";
pub const DOWNLOAD_URL: &'static str = "https://atomicdata.dev/properties/downloadURL";
pub const READ: &'static str = "https://atomicdata.dev/properties/read";
pub const WRITE: &'static str = "https://atomicdata.dev/properties/write";
pub const INCOMPLETE: &'static str = "https://atomicdata.dev/properties/incomplete";

// Commits
pub const SUBJECT: &'static str = "https://atomicdata.dev/properties/subject";
pub const SIGNATURE: &'static str = "https://atomicdata.dev/properties/signature";
pub const CREATED_AT: &'static str = "https://atomicdata.dev/properties/createdAt";


// Collections and queries
pub const PATH_QUERY: &'static str = "/query";
pub const COLLECTION_PROPERTY: &'static str = "https://atomicdata.dev/properties/collection/property";
pub const COLLECTION_VALUE: &'static str = "https://atomicdata.dev/properties/collection/value";
pub const COLLECTION_PAGE_SIZE: &'static str = "https://atomicdata.dev/properties/collection/pageSize";
pub const COLLECTION_CURRENT_PAGE: &'static str = "https://atomicdata.dev/properties/collection/currentPage";
pub const COLLECTION_INCLUDE_EXTERNAL: &'static str = "https://atomicdata.dev/properties/collection/includeExternal";
pub const COLLECTION_INCLUDE_NESTED: &'static str = "https://atomicdata.dev/properties/collection/includeNested";
pub const COLLECTION_SORT_BY: &'static str = "https://atomicdata.dev/properties/collection/sortBy";
pub const COLLECTION_SORT_DESC: &'static str = "https://atomicdata.dev/properties/collection/sortDesc";

// Endpoints
pub const ENDPOINT_PARAMETERS: &'static str = "https://atomicdata.dev/properties/endpoint/parameters";
pub const PATH: &'static str = "https://atomicdata.dev/properties/path";
pub const ATOM_SUBJECT: &'static str = "https://atomicdata.dev/properties/atom/subject";
pub const ATOM_PROPERTY: &'static str = "https://atomicdata.dev/properties/atom/property";
pub const ATOM_VALUE: &'static str = "https://atomicdata.dev/properties/atom/value";

// Importers
pub const IMPORTER_URL: &'static str = "https://atomicdata.dev/properties/importer/url";
pub const IMPORTER_JSON: &'static str = "https://atomicdata.dev/properties/importer/json";
pub const IMPORTER_PARENT: &'static str = "https://atomicdata.dev/properties/importer/parent";
pub const IMPORTER_OVERWRITE_OUTSIDE: &'static str = "https://atomicdata.dev/properties/importer/overwrite-outside";

// Invites
pub const TARGET: &'static str = "https://atomicdata.dev/properties/invite/target";
pub const WRITE_BOOL: &'static str = "https://atomicdata.dev/properties/invite/write";
pub const USAGES_LEFT: &'static str = "https://atomicdata.dev/properties/invite/usagesLeft";
pub const EXPIRES_AT: &'static str = "https://atomicdata.dev/properties/invite/expiresAt";
pub const INVITE_PUBKEY: &'static str = "https://atomicdata.dev/properties/invite/publicKey";
pub const DESTINATION: &'static str = "https://atomicdata.dev/properties/destination";
pub const REDIRECT_AGENT: &'static str = "https://atomicdata.dev/properties/invite/redirectAgent";

// Chat rooms and documents
pub const MESSAGES: &'static str = "https://atomicdata.dev/properties/messages";
pub const NEXT_PAGE: &'static str = "https://atomicdata.dev/properties/nextPage";
pub const DOCUMENT_CONTENT: &'static str = "https://atomicdata.dev/ontology/server/property/document-content";

} // verus!
