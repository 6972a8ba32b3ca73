//! Configuration of the optional render endpoint. The network front end
//! itself is an external collaborator; only its plain-value settings and
//! their defaults live here.

use vstd::prelude::*;

verus! {

use vstd::string::StringExecFns;
use vstd::string::StringSliceAdditionalSpecFns;

/// Relies on `num_cpus::get`: it returns the number of logical processors
/// available, and its documentation promises at least 1.
#[verifier::external_body]
fn cpu_count() -> (r: usize)
    ensures
        r >= 1,
{
    num_cpus::get()
}

/// Settings of the render endpoint: the bind address, the worker count, the
/// in-flight-job ceiling, whether responses are compressed, and the optional
/// certificate and key paths.
#[derive(Clone)]
pub struct RenderServerOptions {
    pub host: String,
    pub workers: usize,
    pub max_tasks: usize,
    pub compress: bool,
    pub tls: Option<(String, String)>,
}

impl Default for RenderServerOptions {
    /// Every interface on port 8080, one worker per processor, at most 128
    /// jobs in flight, no compression, no TLS.
    fn default() -> (r: Self)
        ensures
            r.host@ == "0.0.0.0:8080"@,
            r.workers >= 1,
            r.max_tasks == 128,
            r.compress == false,
            r.tls is None,
    {
        RenderServerOptions {
            host: String::from_str("0.0.0.0:8080"),
            workers: cpu_count(),
            max_tasks: 128,
            compress: false,
            tls: None,
        }
    }
}

impl RenderServerOptions {
    pub fn set_host(&mut self, host: &str)
        ensures
            *final(self) == (RenderServerOptions { host: final(self).host, ..*old(self) }),
            final(self).host@ == host@,
    {
        self.host = String::from_str(host);
    }

    pub fn set_workers(&mut self, num: usize)
        ensures
            *final(self) == (RenderServerOptions { workers: num, ..*old(self) }),
    {
        self.workers = num;
    }

    pub fn set_max_tasks(&mut self, num: usize)
        ensures
            *final(self) == (RenderServerOptions { max_tasks: num, ..*old(self) }),
    {
        self.max_tasks = num;
    }

    pub fn set_compress(&mut self, compress: bool)
        ensures
            *final(self) == (RenderServerOptions { compress, ..*old(self) }),
    {
        self.compress = compress;
    }

    pub fn set_tls(&mut self, cert_file: String, key_file: String)
        ensures
            final(self).tls matches Some(t) && t.0@ == cert_file@ && t.1@ == key_file@,
            final(self).host == old(self).host,
            final(self).workers == old(self).workers,
            final(self).max_tasks == old(self).max_tasks,
            final(self).compress == old(self).compress,
    {
        self.tls = Some((cert_file, key_file));
    }

    /// Whether one more job may be admitted: requests are rejected, never
    /// queued, once the in-flight count reaches the ceiling.
    pub fn admits(&self, working: usize) -> (r: bool)
        ensures
            r == (working < self.max_tasks),
    {
        working < self.max_tasks
    }
}

} // verus!
