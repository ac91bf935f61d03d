//! The literal words and delimiters of the schema language.
use vstd::prelude::*;

verus! {

#[derive(Debug, Clone, Copy, PartialEq, Eq, Structural)]
pub enum Marker {
    KwStr,
    KwInt,
    KwFloat,
    KwBool,
    KwEpoch,
    KwPath,
    Bang,
    Open,
    Close,
    Colon,
    Range,
    FieldRef,
    SelfRef,
    Sparse,
    MapOpen,
    Dot,
    Comment,
    Extends,
    BraceOpen,
    ParenClose,
}

pub open spec fn marker(m: Marker) -> Seq<char> {
    match m {
        Marker::KwStr => seq!['s', 't', 'r'],
        Marker::KwInt => seq!['i', 'n', 't'],
        Marker::KwFloat => seq!['f', 'l', 'o', 'a', 't'],
        Marker::KwBool => seq!['b', 'o', 'o', 'l'],
        Marker::KwEpoch => seq!['{', '@', 'e', 'p', 'o', 'c', 'h', '}'],
        Marker::KwPath => seq!['{', '@', 'p', 'a', 't', 'h', '}'],
        Marker::Bang => seq!['!'],
        Marker::Open => seq!['['],
        Marker::Close => seq![']'],
        Marker::Colon => seq![':'],
        Marker::Range => seq!['.', '.'],
        Marker::FieldRef => seq!['}', '.'],
        Marker::SelfRef => seq!['{', 't', 'h', 'i', 's', '.'],
        Marker::Sparse => seq!['t', 'h', 'i', 's', '.'],
        Marker::MapOpen => seq!['[', '@'],
        Marker::Dot => seq!['.'],
        Marker::Comment => seq!['/', '/'],
        Marker::Extends => seq!['(', ':'],
        Marker::BraceOpen => seq!['{'],
        Marker::ParenClose => seq![')'],
    }
}

/// The text of a marker.
pub fn marker_str(m: Marker) -> (r: &'static str)
    ensures
        r@ == marker(m),
{
    match m {
        Marker::KwStr => {
            proof {
                reveal_strlit("str");
            }
            assert("str"@ =~= marker(m));
            "str"
        },
        Marker::KwInt => {
            proof {
                reveal_strlit("int");
            }
            assert("int"@ =~= marker(m));
            "int"
        },
        Marker::KwFloat => {
            proof {
                reveal_strlit("float");
            }
            assert("float"@ =~= marker(m));
            "float"
        },
        Marker::KwBool => {
            proof {
                reveal_strlit("bool");
            }
            assert("bool"@ =~= marker(m));
            "bool"
        },
        Marker::KwEpoch => {
            proof {
                reveal_strlit("{@epoch}");
            }
            assert("{@epoch}"@ =~= marker(m));
            "{@epoch}"
        },
        Marker::KwPath => {
            proof {
                reveal_strlit("{@path}");
            }
            assert("{@path}"@ =~= marker(m));
            "{@path}"
        },
        Marker::Bang => {
            proof {
                reveal_strlit("!");
            }
            assert("!"@ =~= marker(m));
            "!"
        },
        Marker::Open => {
            proof {
                reveal_strlit("[");
            }
            assert("["@ =~= marker(m));
            "["
        },
        Marker::Close => {
            proof {
                reveal_strlit("]");
            }
            assert("]"@ =~= marker(m));
            "]"
        },
        Marker::Colon => {
            proof {
                reveal_strlit(":");
            }
            assert(":"@ =~= marker(m));
            ":"
        },
        Marker::Range => {
            proof {
                reveal_strlit("..");
            }
            assert(".."@ =~= marker(m));
            ".."
        },
        Marker::FieldRef => {
            proof {
                reveal_strlit("}.");
            }
            assert("}."@ =~= marker(m));
            "}."
        },
        Marker::SelfRef => {
            proof {
                reveal_strlit("{this.");
            }
            assert("{this."@ =~= marker(m));
            "{this."
        },
        Marker::Sparse => {
            proof {
                reveal_strlit("this.");
            }
            assert("this."@ =~= marker(m));
            "this."
        },
        Marker::MapOpen => {
            proof {
                reveal_strlit("[@");
            }
            assert("[@"@ =~= marker(m));
            "[@"
        },
        Marker::Dot => {
            proof {
                reveal_strlit(".");
            }
            assert("."@ =~= marker(m));
            "."
        },
        Marker::Comment => {
            proof {
                reveal_strlit("//");
            }
            assert("//"@ =~= marker(m));
            "//"
        },
        Marker::Extends => {
            proof {
                reveal_strlit("(:");
            }
            assert("(:"@ =~= marker(m));
            "(:"
        },
        Marker::BraceOpen => {
            proof {
                reveal_strlit("{");
            }
            assert("{"@ =~= marker(m));
            "{"
        },
        Marker::ParenClose => {
            proof {
                reveal_strlit(")");
            }
            assert(")"@ =~= marker(m));
            ")"
        },
    }
}

} // verus!
