use vstd::prelude::*;

use crate::config::DiskConfig;
use crate::names::{file_name, file_name_of};

verus! {

/// `base` joined with the relative path `name`, with one `/` between them.
pub open spec fn joined(base: Seq<char>, name: Seq<char>) -> Seq<char> {
    if base.len() == 0 {
        name
    } else if base.last() == '/' {
        base + name
    } else {
        base + seq!['/'] + name
    }
}

/// Where an upload stored under `saved_name` lives below `save_path`: only
/// the final component of the name counts, so no name reaches outside the
/// directory.
pub open spec fn path_of(save_path: Seq<char>, saved_name: Seq<char>) -> Seq<char> {
    joined(
        save_path,
        match file_name_of(saved_name) {
            Some(f) => f,
            None => Seq::empty(),
        },
    )
}

/// The on-disk store of uploads: one flat file per upload.
pub struct Disk {
    cfg: DiskConfig,
}

impl Disk {
    /// The configuration.
    pub closed spec fn config(&self) -> DiskConfig {
        self.cfg
    }

    /// The directory that holds the uploads.
    pub open spec fn save_path(&self) -> Seq<char> {
        self.config().save_path@
    }

    pub fn with_config(cfg: DiskConfig) -> (d: Disk)
        ensures
            d.config() == cfg,
    {
        Disk { cfg }
    }

    /// The path of the file of an upload.
    pub fn path_for(&self, saved_name: &str) -> (r: String)
        ensures
            r@ == path_of(self.save_path(), saved_name@),
    {
        let name = match file_name(saved_name) {
            Some(f) => f,
            None => String::new(),
        };
        let base = self.cfg.save_path.as_str();
        let mut p = String::from_str(base);
        let n = base.unicode_len();
        proof {
            reveal_strlit("/");
        }
        if n > 0 && base.get_char(n - 1) != '/' {
            p.append("/");
        }
        p.append(name.as_str());
        assert(p@ =~= path_of(self.save_path(), saved_name@));
        p
    }
}

} // verus!
