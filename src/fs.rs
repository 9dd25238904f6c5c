pub mod boot_sector;
pub mod fat;
pub mod clusters;
pub mod directory;
pub mod path;
pub mod cat;
pub mod cd;
pub mod ls;
