use vstd::prelude::*;

verus! {

/// Where the rasters come from.
#[derive(Debug, Clone)]
pub enum Source {
    /// A directory tree on the local file system.
    Local(String),
    /// An object store bucket, not served yet.
    S3 { bucket: String, prefix: String },
}

/// The server's settings.
#[derive(Debug, Clone)]
pub struct Config {
    pub source: Option<Source>,
    pub data_folder: String,
    pub default_style: Option<String>,
    pub tile_size_x: u32,
    pub tile_size_y: u32,
    pub port: u16,
    pub default_raster_band: usize,
    pub cache_size_gb: usize,
}

/// The port served on unless another is given.
pub const DEFAULT_PORT: u16 = 8000;

/// A path joined onto a base, as `Path::join` does on Unix: an absolute path
/// replaces the base, and a `/` is put between the two unless the base is empty
/// or already ends with one.
pub open spec fn join_path(base: Seq<char>, path: Seq<char>) -> Seq<char> {
    if path.len() > 0 && path[0] == '/' {
        path
    } else if base.len() == 0 || base.last() == '/' {
        base + path
    } else {
        base + seq!['/'] + path
    }
}

impl Default for Config {
    fn default() -> (r: Self)
        ensures
            r.source is None,
            r.data_folder@ == "data"@,
            r.default_style matches Some(s) && s@ == "default"@,
            r.tile_size_x == 256,
            r.tile_size_y == 256,
            r.port == DEFAULT_PORT,
            r.default_raster_band == 1,
            r.cache_size_gb == 2,
    {
        Config {
            source: None,
            data_folder: String::from_str("data"),
            default_style: Some(String::from_str("default")),
            tile_size_x: 256,
            tile_size_y: 256,
            port: DEFAULT_PORT,
            default_raster_band: 1,
            cache_size_gb: 2,
        }
    }
}

impl Config {
    /// `path` made absolute against the working directory `cwd`.
    pub fn parse_path_to_absolute(path: &str, cwd: &str) -> (r: String)
        ensures
            r@ == join_path(cwd@, path@),
    {
        let n = path.unicode_len();
        if n > 0 && path.get_char(0) == '/' {
            return String::from_str(path);
        }
        let m = cwd.unicode_len();
        let base = String::from_str(cwd);
        if m == 0 || cwd.get_char(m - 1) == '/' {
            base.concat(path)
        } else {
            let with_sep = base.concat("/");
            proof { reveal_strlit("/"); }
            assert("/"@ =~= seq!['/']);
            with_sep.concat(path)
        }
    }

    /// The default data folder, made absolute against the working directory `cwd`.
    pub fn default_data_folder(cwd: &str) -> (r: String)
        ensures
            r@ == join_path(cwd@, "data"@),
    {
        let d = Self::default();
        Self::parse_path_to_absolute(d.data_folder.as_str(), cwd)
    }

    /// The default port.
    pub fn default_port() -> (r: u16)
        ensures
            r == DEFAULT_PORT,
    {
        let d = Self::default();
        d.port
    }

}

} // verus!
