//! The ways of laying a fisheye view out on a flat output.

use std::str::FromStr;
use vstd::prelude::*;
use vstd::string::*;

use crate::text;
use crate::text::{same_text, to_lower};

verus! {

/// Output projection for the flatten operation.
#[derive(Debug, Clone, Copy, PartialEq, Eq, Structural)]
pub enum Projection {
    Rectilinear,
    Cylindrical,
}

/// The projection that goes by `name`.
pub open spec fn projection_named(name: Seq<char>) -> Option<Projection> {
    if name == "rect"@ || name == "rectilinear"@ {
        Some(Projection::Rectilinear)
    } else if name == "cyl"@ || name == "cylindrical"@ {
        Some(Projection::Cylindrical)
    } else {
        None
    }
}

/// The message for a text that names no projection.
pub open spec fn unknown_projection(s: Seq<char>) -> Seq<char> {
    "Unknown projection '"@ + s + "'. Use rect or cyl."@
}

impl Projection {
    /// The projection that goes by `name`, in lower case.
    pub fn named(name: &str) -> (r: Option<Projection>)
        ensures
            r == projection_named(name@),
    {
        if same_text(name, "rect") || same_text(name, "rectilinear") {
            Some(Projection::Rectilinear)
        } else if same_text(name, "cyl") || same_text(name, "cylindrical") {
            Some(Projection::Cylindrical)
        } else {
            None
        }
    }

    /// The projection that `s` names, in capital or small letters.
    pub fn parse(s: &str) -> (r: Result<Projection, String>)
        ensures
            match r {
                Ok(p) => projection_named(text::lower(s@)) == Some(p),
                Err(e) => projection_named(text::lower(s@)) is None && e@ == unknown_projection(s@),
            },
    {
        let name = to_lower(s);
        match Projection::named(name.as_str()) {
            Some(p) => Ok(p),
            None => {
                let mut e = "Unknown projection '".to_owned();
                e.append(s);
                e.append("'. Use rect or cyl.");
                Err(e)
            },
        }
    }

    /// The short name of the projection.
    pub fn short_name(&self) -> (r: &'static str)
        ensures
            r@ == short_name_of(*self),
    {
        match self {
            Projection::Rectilinear => "rect",
            Projection::Cylindrical => "cyl",
        }
    }

    /// The full name of the projection.
    pub fn full_name(&self) -> (r: &'static str)
        ensures
            r@ == full_name_of(*self),
    {
        match self {
            Projection::Rectilinear => "rectilinear",
            Projection::Cylindrical => "cylindrical",
        }
    }

    /// The projection that suits a photo: cylindrical for a circular fisheye,
    /// rectilinear for one that fills the frame; a projection that was asked
    /// for wins.
    pub fn suited(asked: Option<Projection>, is_circular: bool) -> (r: Projection)
        ensures
            r == chosen_projection(asked, is_circular),
    {
        match asked {
            Some(p) => p,
            None => if is_circular {
                Projection::Cylindrical
            } else {
                Projection::Rectilinear
            },
        }
    }
}

/// The short name of `p`.
pub open spec fn short_name_of(p: Projection) -> Seq<char> {
    match p {
        Projection::Rectilinear => "rect"@,
        Projection::Cylindrical => "cyl"@,
    }
}

/// The full name of `p`.
pub open spec fn full_name_of(p: Projection) -> Seq<char> {
    match p {
        Projection::Rectilinear => "rectilinear"@,
        Projection::Cylindrical => "cylindrical"@,
    }
}

/// The projection that was asked for, or the one that suits the photo.
pub open spec fn chosen_projection(asked: Option<Projection>, is_circular: bool) -> Projection {
    match asked {
        Some(p) => p,
        None => if is_circular {
            Projection::Cylindrical
        } else {
            Projection::Rectilinear
        },
    }
}

impl FromStr for Projection {
    type Err = String;

    /// The projection that `s` names, in capital or small letters.
    fn from_str(s: &str) -> (r: Result<Self, String>)
        ensures
            match r {
                Ok(p) => projection_named(text::lower(s@)) == Some(p),
                Err(e) => projection_named(text::lower(s@)) is None && e@ == unknown_projection(s@),
            },
    {
        Projection::parse(s)
    }
}

proof fn lemma_names()
    ensures
        text::ascii("rect"@),
        text::ascii("cyl"@),
        text::ascii("rectilinear"@),
        text::ascii("cylindrical"@),
        text::lower("rect"@) == "rect"@,
        text::lower("cyl"@) == "cyl"@,
        text::lower("rectilinear"@) == "rectilinear"@,
        text::lower("cylindrical"@) == "cylindrical"@,
        "rect"@ != "cyl"@,
        "rectilinear"@ != "cyl"@,
        "rect"@ != "cylindrical"@,
        "rectilinear"@ != "cylindrical"@,
{
    reveal_strlit("rect");
    reveal_strlit("cyl");
    reveal_strlit("rectilinear");
    reveal_strlit("cylindrical");
    assert(text::lower("rect"@) =~= "rect"@);
    assert(text::lower("cyl"@) =~= "cyl"@);
    assert(text::lower("rectilinear"@) =~= "rectilinear"@);
    assert(text::lower("cylindrical"@) =~= "cylindrical"@);
    assert("rect"@.len() == 4);
    assert("cyl"@.len() == 3);
    assert("rectilinear"@[0] == 'r');
    assert("cylindrical"@[0] == 'c');
    assert("rect"@[0] == 'r');
}

/// Parsing either name of a projection gives the projection back.
pub proof fn law_names_parse_back(p: Projection)
    ensures
        projection_named(text::lower(short_name_of(p))) == Some(p),
        projection_named(text::lower(full_name_of(p))) == Some(p),
{
    lemma_names();
}

/// A projection goes by four names and no others.
pub proof fn law_projections_have_four_names(name: Seq<char>)
    ensures
        projection_named(name) == Some(Projection::Rectilinear) <==> name == "rect"@ || name
            == "rectilinear"@,
        projection_named(name) == Some(Projection::Cylindrical) <==> name == "cyl"@ || name
            == "cylindrical"@,
{
    lemma_names();
}

/// What was asked for is taken; else a circular photo is laid out on a cylinder
/// and a full frame on a plane.
pub proof fn law_projection_suits_the_photo(p: Projection, is_circular: bool)
    ensures
        chosen_projection(Some(p), is_circular) == p,
        chosen_projection(None, true) == Projection::Cylindrical,
        chosen_projection(None, false) == Projection::Rectilinear,
{
}

} // verus!
