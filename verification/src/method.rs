//! One method of an implementation block: its signature heading and its
//! description.

use vstd::prelude::*;

use crate::description::{description_spec, Description, DescriptionView};
use crate::errors::Herr;
use crate::fragment::{frags_view, FragView, Fragment};
use crate::html_element::{extract_spec, zip_spec, HtmlElement};

verus! {

/// One of several possible methods.
#[derive(Debug, PartialEq)]
pub struct Method {
    pub signature: Vec<Fragment>,
    pub description: Description,
}

/// The mathematical shape of a `Method`.
pub ghost struct MethodView {
    pub signature: Seq<FragView>,
    pub description: DescriptionView,
}

impl View for Method {
    type V = MethodView;

    open spec fn view(&self) -> MethodView {
        MethodView { signature: frags_view(self.signature@), description: self.description@ }
    }
}

/// What parsing one method yields: the zipped signature heading, and the
/// parsed description.
pub open spec fn method_spec(data: Seq<char>) -> Result<MethodView, Herr> {
    match extract_spec("h4"@, data) {
        Err(e) => Err(e),
        Ok(elpair) => match zip_spec(elpair.0) {
            Err(e) => Err(e),
            Ok(sig) => match description_spec(data) {
                Err(e) => Err(e),
                Ok(d) => Ok(MethodView { signature: sig, description: d }),
            },
        },
    }
}

impl Method {
    /// Parses the one method into its signature and description.
    pub fn parse(data: &str) -> (r: Result<Method, Herr>)
        ensures
            match r {
                Ok(m) => method_spec(data@) == Ok::<MethodView, Herr>(m@),
                Err(e) => method_spec(data@) == Err::<MethodView, Herr>(e),
            },
    {
        match HtmlElement::extract("h4", data) {
            Err(e) => Err(e),
            Ok(el) => match el.zip_content() {
                Err(e) => Err(e),
                Ok(signature) => match Description::parse(data) {
                    Err(e) => Err(e),
                    Ok(description) => Ok(Method { signature, description }),
                },
            },
        }
    }
}

} // verus!
