//! Paths of the engine's virtual file system for the asset sources, the
//! errors of the resource loader, and the decisions of the resource loader
//! while the engine loads a resource.

use crate::text::concat;
use vstd::prelude::*;

verus! {

/// Reads assets of one engine source, such as `res://` or `user://`, by
/// prefixing each requested path with the source's scheme.
pub struct GodotAssetReader {
    pub scheme: &'static str,
}

impl GodotAssetReader {
    /// A reader for the source whose scheme is `scheme` (for instance `res://`).
    pub fn new(scheme: &'static str) -> (reader: Self)
        ensures
            reader.scheme@ == scheme@,
    {
        GodotAssetReader { scheme }
    }

    /// The engine path of `path`: the scheme followed by the path's text.
    pub fn godot_path(&self, path: &str) -> (full: String)
        ensures
            full@ == self.scheme@ + path@,
    {
        concat(self.scheme, path)
    }
}

/// Errors of the engine resource loader.
#[derive(Debug)]
pub enum GodotAssetLoaderError {
    /// The engine's `ResourceLoader` could not load the resource at this path.
    ResourceLoadFailed(String),
}

/// The state of a threaded load request, as the engine's resource loader
/// reports it.
#[derive(Clone, Copy, Debug, PartialEq, Eq)]
pub enum LoadStatus {
    /// The path names no resource, or the resource is corrupted.
    InvalidResource,
    /// The engine is still loading.
    InProgress,
    /// The engine gave up on the resource.
    Failed,
    /// The resource is loaded and can be fetched.
    Loaded,
}

/// What the loader does after polling a threaded request.
#[derive(Debug)]
pub enum LoadStep {
    /// Yield and poll again.
    Wait,
    /// Fetch the loaded resource.
    Fetch,
    /// Give up with this error.
    Fail(GodotAssetLoaderError),
}

/// The text of the error for a request that the engine failed to load.
pub open spec fn failed_load_text(path: Seq<char>) -> Seq<char> {
    "Godot ResourceLoader failed to load: "@ + path
}

/// The text of the error for a path that names no valid resource.
pub open spec fn invalid_resource_text(path: Seq<char>) -> Seq<char> {
    "Invalid resource path or corrupted resource: "@ + path
}

/// The text of the error when a synchronous load gave nothing back.
pub open spec fn load_failed_text(path: Seq<char>) -> Seq<char> {
    "Failed to load Godot resource: "@ + path
}

/// The text of the error when a finished threaded load gave nothing back.
pub open spec fn fetch_failed_text(path: Seq<char>) -> Seq<char> {
    "Failed to get loaded Godot resource: "@ + path
}

/// The text of the error when the engine's file access cannot open a file.
pub open spec fn open_failed_text(path: Seq<char>) -> Seq<char> {
    "Godot FileAccess could not open '"@ + path + "'"@
}

/// Whether `err` is the load error whose text is `text`.
pub open spec fn is_load_error(err: GodotAssetLoaderError, text: Seq<char>) -> bool {
    match err {
        GodotAssetLoaderError::ResourceLoadFailed(t) => t@ == text,
    }
}

/// Decides the next step of a threaded load of `path` from the status the
/// engine reported: wait while it loads, fetch once it is loaded, and fail
/// with the matching error otherwise.
pub fn next_load_step(path: &str, status: LoadStatus) -> (step: LoadStep)
    ensures
        status == LoadStatus::InProgress <==> step is Wait,
        status == LoadStatus::Loaded <==> step is Fetch,
        status == LoadStatus::Failed ==> (step matches LoadStep::Fail(e) && is_load_error(
            e,
            failed_load_text(path@),
        )),
        status == LoadStatus::InvalidResource ==> (step matches LoadStep::Fail(e) && is_load_error(
            e,
            invalid_resource_text(path@),
        )),
{
    match status {
        LoadStatus::InProgress => LoadStep::Wait,
        LoadStatus::Loaded => LoadStep::Fetch,
        LoadStatus::Failed => LoadStep::Fail(
            GodotAssetLoaderError::ResourceLoadFailed(
                concat("Godot ResourceLoader failed to load: ", path),
            ),
        ),
        LoadStatus::InvalidResource => LoadStep::Fail(
            GodotAssetLoaderError::ResourceLoadFailed(
                concat("Invalid resource path or corrupted resource: ", path),
            ),
        ),
    }
}

/// The outcome of a synchronous load of `path`: the resource the engine gave
/// back, or the load error when it gave back nothing.
pub fn load_outcome<T>(path: &str, loaded: Option<T>) -> (outcome: Result<T, GodotAssetLoaderError>)
    ensures
        loaded matches Some(r) ==> outcome == Ok::<T, GodotAssetLoaderError>(r),
        loaded is None ==> (outcome matches Err(e) && is_load_error(e, load_failed_text(path@))),
{
    match loaded {
        Some(resource) => Ok(resource),
        None => Err(
            GodotAssetLoaderError::ResourceLoadFailed(
                concat("Failed to load Godot resource: ", path),
            ),
        ),
    }
}

/// The outcome of fetching a finished threaded load of `path`: the resource
/// the engine gave back, or the load error when it gave back nothing.
pub fn fetch_outcome<T>(path: &str, fetched: Option<T>) -> (outcome: Result<T, GodotAssetLoaderError>)
    ensures
        fetched matches Some(r) ==> outcome == Ok::<T, GodotAssetLoaderError>(r),
        fetched is None ==> (outcome matches Err(e) && is_load_error(e, fetch_failed_text(path@))),
{
    match fetched {
        Some(resource) => Ok(resource),
        None => Err(
            GodotAssetLoaderError::ResourceLoadFailed(
                concat("Failed to get loaded Godot resource: ", path),
            ),
        ),
    }
}

/// The message of the error when the engine's file access cannot open `path`.
pub fn open_failed_message(path: &str) -> (message: String)
    ensures
        message@ == open_failed_text(path@),
{
    let head = concat("Godot FileAccess could not open '", path);
    concat(head.as_str(), "'")
}

} // verus!
