pub mod driver;
pub mod http;
pub mod https;
pub mod minecraft;
pub mod outcome;
pub mod quic;
pub mod resolver;

pub use driver::DriverState;
pub use driver::DriverVerdict;
pub use driver::DropReason;
pub use driver::Protocol;
pub use outcome::SniffModel;
pub use outcome::SniffOutcome;
pub use resolver::ResolutionPolicy;
pub use resolver::ResolveError;
pub use resolver::ResolvedUpstream;
