pub mod argparse;
pub mod echo;
pub mod fs;
pub mod ls;
pub mod order;
