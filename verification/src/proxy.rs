//! The upload/download proxy's verified half: which node a request goes
//! to, and the exact URLs the coordinator calls on a node.

use vstd::prelude::*;
use vstd::string::StringExecFns;

verus! {

/// Which node serves a proxied request: the draw lands uniformly on the
/// whole configured set, so with a single node it always serves.
pub fn choose_node_index(n_nodes: usize, draw: usize) -> (r: usize)
    requires
        n_nodes >= 1,
    ensures
        r == draw as int % n_nodes as int,
        r < n_nodes,
{
    draw % n_nodes
}

/// The URL that pins a CID on a node.
pub fn pin_url(api_url: &str, cid: &str) -> (r: String)
    ensures
        r@ == api_url@ + "/api/v0/pin/add?arg="@ + cid@,
{
    let mut r = api_url.to_owned();
    r.append("/api/v0/pin/add?arg=");
    r.append(cid);
    r
}

/// The URL that unpins a CID from a node.
pub fn unpin_url(api_url: &str, cid: &str) -> (r: String)
    ensures
        r@ == api_url@ + "/api/v0/pin/rm?arg="@ + cid@,
{
    let mut r = api_url.to_owned();
    r.append("/api/v0/pin/rm?arg=");
    r.append(cid);
    r
}

/// The URL that asks a node for a CID's size.
pub fn dag_stat_url(api_url: &str, cid: &str) -> (r: String)
    ensures
        r@ == api_url@ + "/api/v0/dag/stat?arg="@ + cid@ + "&progress=false"@,
{
    let mut r = api_url.to_owned();
    r.append("/api/v0/dag/stat?arg=");
    r.append(cid);
    r.append("&progress=false");
    r
}

/// The URL the upload proxy streams a file to: wrapped in a directory on
/// request, quiet otherwise.
pub fn upload_url(api_url: &str, dir: bool) -> (r: String)
    ensures
        dir ==> r@ == api_url@
            + "/api/v0/add?progress=false&pin=false&wrap-with-directory=true&cid-version=1&silent=true"@,
        !dir ==> r@ == api_url@ + "/api/v0/add?progress=false&pin=false&cid-version=1&quieter=true"@,
{
    let mut r = api_url.to_owned();
    if dir {
        r.append(
            "/api/v0/add?progress=false&pin=false&wrap-with-directory=true&cid-version=1&silent=true",
        );
    } else {
        r.append("/api/v0/add?progress=false&pin=false&cid-version=1&quieter=true");
    }
    r
}

/// The gateway URL a download is streamed from.
pub fn gateway_url(gateway: &str, path: &str) -> (r: String)
    ensures
        r@ == gateway@ + "/ipfs/"@ + path@,
{
    let mut r = gateway.to_owned();
    r.append("/ipfs/");
    r.append(path);
    r
}

} // verus!
