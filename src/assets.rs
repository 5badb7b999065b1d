//! Where the engine's bundled files are, below an asset directory.
use vstd::prelude::*;

verus! {

broadcast use vstd::string::group_string_axioms;

/// `<root>/<path>`.
pub open spec fn asset_path(root: Seq<char>, path: Seq<char>) -> Seq<char> {
    root + "/"@ + path
}

/// The path of a bundled file below the asset directory `root`.
pub fn asset(root: &str, path: &str) -> (r: String)
    ensures
        r@ == asset_path(root@, path@),
{
    let mut s = String::from_str(root);
    s.append("/");
    s.append(path);
    s
}

/// The dictionary of the text analyser.
pub fn open_jtalk_dic(root: &str) -> (r: String)
    ensures
        r@ == asset_path(root@, "dict"@),
{
    asset(root, "dict")
}

/// The bundled test voicebank.
pub fn tyc_utau(root: &str) -> (r: String)
    ensures
        r@ == asset_path(root@, "tyc-utau"@),
{
    asset(root, "tyc-utau")
}

/// The bundled prosody model.
pub fn sample_vvm(root: &str) -> (r: String)
    ensures
        r@ == asset_path(root@, "sample.vvm"@),
{
    asset(root, "sample.vvm")
}

} // verus!
