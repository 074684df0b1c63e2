//! The stable-image snapshot of a stack: service name to image, kept as
//! JSON on the stack record so that a failed redeploy can be rolled back.
use vstd::prelude::*;
use crate::assoc::pairs_view;
use crate::containers::{stable_images, running_images};
use crate::error::AppError;
use crate::runtime::ContainerInfo;
use crate::stack::Stack;

verus! {

/// The JSON text that serde_json writes for a map of service to image.
pub uninterp spec fn images_json(m: Seq<(Seq<char>, Seq<char>)>) -> Seq<char>;

/// The map of service to image that serde_json reads from a JSON text, if it reads one.
pub uninterp spec fn images_from_json(s: Seq<char>) -> Option<Seq<(Seq<char>, Seq<char>)>>;

/// Relies on `serde_json::to_string` on a `BTreeMap<String, String>`: the
/// JSON object of the pairs, written in key order. Serialization fails
/// only for non-string map keys or a failing `Serialize` impl, neither of
/// which a map of strings has.
#[verifier::external_body]
fn images_to_json(m: &Vec<(String, String)>) -> (r: Result<String, String>)
    ensures
        r is Ok,
        r matches Ok(s) ==> s@ == images_json(pairs_view(m@)),
{
    let map: std::collections::BTreeMap<&String, &String> = m.iter().map(|p| (&p.0, &p.1)).collect();
    serde_json::to_string(&map).map_err(|e| e.to_string())
}

/// Relies on `serde_json::from_str` into a `BTreeMap<String, String>`: the
/// pairs of a JSON object of strings, in key order, or an error.
#[verifier::external_body]
fn images_of_json(s: &str) -> (r: Result<Vec<(String, String)>, String>)
    ensures
        match r {
            Ok(v) => images_from_json(s@) == Some(pairs_view(v@)),
            Err(_) => images_from_json(s@) is None,
        },
{
    serde_json::from_str::<std::collections::BTreeMap<String, String>>(s)
        .map(|m| m.into_iter().collect())
        .map_err(|e| e.to_string())
}

/// The snapshot to record before a redeploy replaces anything: the JSON of
/// the images that the stack's containers run, by service; `None` where no
/// service could be told, in which case nothing is recorded.
pub fn snapshot_stable_images(cs: &Vec<ContainerInfo>, stack_name: &str) -> (r: Result<Option<String>, AppError>)
    ensures
        running_images(cs@, stack_name@).len() == 0 ==> r matches Ok(None),
        running_images(cs@, stack_name@).len() > 0 ==> (r matches Ok(Some(s)) && s@ == images_json(running_images(cs@, stack_name@))),
{
    match stable_images(cs, stack_name) {
        None => Ok(None),
        Some(m) => match images_to_json(&m) {
            Ok(s) => Ok(Some(s)),
            Err(msg) => Err(AppError::Internal(msg)),
        },
    }
}

/// The stable images recorded on a stack, as service to image. `BadRequest`
/// where none were recorded, `Internal` where the record does not read.
pub fn recorded_stable_images(stack: &Stack) -> (r: Result<Vec<(String, String)>, AppError>)
    ensures
        stack.last_stable_images is None ==> r matches Err(AppError::BadRequest(_)),
        stack.last_stable_images matches Some(j) ==> match images_from_json(j@) {
            Some(m) => r matches Ok(v) && pairs_view(v@) == m,
            None => r matches Err(AppError::Internal(_)),
        },
{
    match &stack.last_stable_images {
        None => Err(AppError::BadRequest("No stable version available for rollback".to_owned())),
        Some(j) => match images_of_json(j.as_str()) {
            Ok(v) => Ok(v),
            Err(msg) => Err(AppError::Internal(msg)),
        },
    }
}

/// The compose document of a stack; `BadRequest` where it has none.
pub fn compose_of(stack: &Stack) -> (r: Result<&String, AppError>)
    ensures
        match stack.compose_content {
            Some(c) => r matches Ok(s) && s@ == c@,
            None => r matches Err(AppError::BadRequest(_)),
        },
{
    match &stack.compose_content {
        Some(c) => Ok(c),
        None => Err(AppError::BadRequest("Stack has no compose content".to_owned())),
    }
}

} // verus!
