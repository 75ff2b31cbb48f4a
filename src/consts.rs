use vstd::prelude::*;

verus! {

/// The package name.
pub const NAME: &'static str = "fht2p";

pub const URL: &'static str = "https://github.com/biluohc/fht2p";

/// The name of the configuration file.
pub const CONFIG_FILE_NAME: &'static str = "fht2p.json";

/// The charset parameter of text content types.
pub const CHARSET: &'static str = "charset=utf-8";

pub const CONTENT_TYPE_HTML: &'static str = "text/html; charset=utf-8";

pub const COMPRESS_LEVEL: u32 = 5;

/// Files at or over this many bytes are not sniffed: 10 MiB.
pub const MAGIC_LIMIT: u64 = 1024 * 1024 * 10;

/// How long index pages may be cached by default, in seconds.
pub const CACHE_SECS: u32 = 60;

/// A value set once at start-up and read afterwards.
pub struct MutStatic<T>(T);

impl<T> View for MutStatic<T> {
    type V = T;

    closed spec fn view(&self) -> T {
        self.0
    }
}

impl<T> MutStatic<T> {
    pub fn new(data: T) -> (r: MutStatic<T>)
        ensures
            r@ == data,
    {
        MutStatic(data)
    }

    pub fn get(&self) -> (r: &T)
        ensures
            *r == self@,
    {
        &self.0
    }

    pub fn set(&mut self, new: T)
        ensures
            final(self)@ == new,
    {
        self.0 = new;
    }
}

} // verus!
