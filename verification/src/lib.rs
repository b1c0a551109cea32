//! Verified core of the fragr arena tools: the rules, parsers and state
//! machines behind the server, the agents and the developer tools.
pub mod text;
pub mod dotenv;
pub mod foreign;
pub mod audiogen;
pub mod protocol;
pub mod brain;
pub mod mcp;
pub mod arena;
pub mod playtest;
