//! Build-time staging of the sherpa-onnx shared libraries on Windows: the
//! names, addresses and decisions of the staging step. Downloading,
//! unpacking and copying happen in the build script around it.

use vstd::prelude::*;
use crate::text::str_eq;

verus! {

/// The sherpa-onnx release whose prebuilt libraries are staged.
pub const SHERPA_ONNX_VERSION: &'static str = "1.13.4";

/// Libraries are staged only when building for Windows.
pub fn stages_for(target_os: &str) -> (r: bool)
    ensures
        r == (target_os@ == "windows"@),
{
    str_eq(target_os, "windows")
}

pub open spec fn archive_stem_of(version: Seq<char>) -> Seq<char> {
    "sherpa-onnx-v"@ + version + "-win-x64-shared-MT-Release-lib"@
}

/// The directory name the prebuilt archive unpacks to.
pub fn archive_stem(version: &str) -> (r: String)
    ensures
        r@ == archive_stem_of(version@),
{
    let mut s = String::from_str("sherpa-onnx-v");
    s.append(version);
    s.append("-win-x64-shared-MT-Release-lib");
    s
}

/// The file name of the prebuilt archive.
pub fn archive_name(stem: &str) -> (r: String)
    ensures
        r@ == stem@ + ".tar.bz2"@,
{
    let mut s = String::from_str(stem);
    s.append(".tar.bz2");
    s
}

/// Where the prebuilt archive is published.
pub fn archive_url(version: &str, name: &str) -> (r: String)
    ensures
        r@ == "https://github.com/k2-fsa/sherpa-onnx/releases/download/v"@ + version@ + "/"@
            + name@,
{
    let mut s = String::from_str("https://github.com/k2-fsa/sherpa-onnx/releases/download/v");
    s.append(version);
    s.append("/");
    s.append(name);
    s
}

/// The temporary name a download is written under before it is renamed.
pub fn partial_download_name(name: &str) -> (r: String)
    ensures
        r@ == name@ + ".part2"@,
{
    let mut s = String::from_str(name);
    s.append(".part2");
    s
}

/// The error of a download answered with a failure status.
pub fn download_status_error(status: &str, url: &str) -> (r: String)
    ensures
        r@ == "HTTP error "@ + status@ + " for "@ + url@,
{
    let mut s = String::from_str("HTTP error ");
    s.append(status);
    s.append(" for ");
    s.append(url);
    s
}

/// A file is staged when its extension is exactly "dll".
pub fn is_library(extension: Option<&str>) -> (r: bool)
    ensures
        r == (extension matches Some(e) && e@ == "dll"@),
{
    match extension {
        Some(e) => str_eq(e, "dll"),
        None => false,
    }
}

/// The outcome of copying: the number of libraries staged, or an error
/// when the library directory held none.
pub fn staging_outcome(copied: usize, lib_dir: &str) -> (r: Result<usize, String>)
    ensures
        copied > 0 ==> r == Ok::<usize, String>(copied),
        copied == 0 ==> (r matches Err(m) && m@ == "No DLLs found in "@ + lib_dir@),
{
    if copied == 0 {
        let mut m = String::from_str("No DLLs found in ");
        m.append(lib_dir);
        Err(m)
    } else {
        Ok(copied)
    }
}

pub open spec fn is_target_name(n: Option<String>) -> bool {
    n matches Some(s) && s@ == "target"@
}

/// The cargo target directory is the nearest ancestor of the build output
/// directory named "target": given the ancestors' file names, nearest
/// first, the index of that ancestor.
pub fn target_dir_index(names: &Vec<Option<String>>) -> (r: Option<usize>)
    ensures
        r matches Some(i) ==> i < names.len() && is_target_name(names@[i as int]) && forall|j: int|
            0 <= j < i ==> !is_target_name(#[trigger] names@[j]),
        r is None ==> forall|j: int| 0 <= j < names.len() ==> !is_target_name(#[trigger] names@[j]),
{
    let mut i: usize = 0;
    while i < names.len()
        invariant
            i <= names.len(),
            forall|j: int| 0 <= j < i ==> !is_target_name(#[trigger] names@[j]),
        decreases names.len() - i,
    {
        match &names[i] {
            Some(n) => {
                if str_eq(n.as_str(), "target") {
                    return Some(i);
                }
            },
            None => {},
        }
        i += 1;
    }
    None
}

} // verus!
