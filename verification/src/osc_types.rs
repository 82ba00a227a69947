use vstd::prelude::*;

use crate::text::{append_decimal, debug_str, debug_str_text, decimal_text};

verus! {

/// A parameter of an operating system command: a small number, or text.
#[derive(Debug, Clone, PartialEq, Eq)]
pub enum AnsiOscToken {
    U8(u8),
    String(String),
}

/// What the second parameter of an operating system command asks for.
#[derive(Debug, Clone, PartialEq, Eq)]
pub enum AnsiOscInternalType {
    Query,
    String(String),
    Unknown(Option<AnsiOscToken>),
}

/// An operating system command that the parser recognised.
#[derive(Debug, Clone, PartialEq, Eq)]
pub enum AnsiOscType {
    RequestColorQueryBackground(AnsiOscInternalType),
    RequestColorQueryForeground(AnsiOscInternalType),
    Ftcs(String),
    SetTitleBar(String),
}

/// The mathematical value of an [`AnsiOscToken`].
pub ghost enum TokenModel {
    U8(u8),
    Text(Seq<char>),
}

/// The mathematical value of an [`AnsiOscInternalType`].
pub ghost enum InternalModel {
    Query,
    Text(Seq<char>),
    Unknown(Option<TokenModel>),
}

/// The mathematical value of an [`AnsiOscType`].
pub ghost enum OscModel {
    RequestColorQueryBackground(InternalModel),
    RequestColorQueryForeground(InternalModel),
    Ftcs(Seq<char>),
    SetTitleBar(Seq<char>),
}

impl DeepView for AnsiOscToken {
    type V = TokenModel;

    open spec fn deep_view(&self) -> TokenModel {
        match self {
            AnsiOscToken::U8(v) => TokenModel::U8(*v),
            AnsiOscToken::String(s) => TokenModel::Text(s@),
        }
    }
}

impl DeepView for AnsiOscInternalType {
    type V = InternalModel;

    open spec fn deep_view(&self) -> InternalModel {
        match self {
            AnsiOscInternalType::Query => InternalModel::Query,
            AnsiOscInternalType::String(s) => InternalModel::Text(s@),
            AnsiOscInternalType::Unknown(t) => InternalModel::Unknown(
                match t {
                    Some(t) => Some(t.deep_view()),
                    None => None,
                },
            ),
        }
    }
}

impl DeepView for AnsiOscType {
    type V = OscModel;

    open spec fn deep_view(&self) -> OscModel {
        match self {
            AnsiOscType::RequestColorQueryBackground(i) => OscModel::RequestColorQueryBackground(
                i.deep_view(),
            ),
            AnsiOscType::RequestColorQueryForeground(i) => OscModel::RequestColorQueryForeground(
                i.deep_view(),
            ),
            AnsiOscType::Ftcs(s) => OscModel::Ftcs(s@),
            AnsiOscType::SetTitleBar(s) => OscModel::SetTitleBar(s@),
        }
    }
}

/// An [`AnsiOscInternalType`] as `{:?}` writes it.
pub open spec fn internal_debug_text(i: InternalModel) -> Seq<char> {
    match i {
        InternalModel::Query => "Query"@,
        InternalModel::Text(t) => "String("@ + debug_str_text(t) + ")"@,
        InternalModel::Unknown(None) => "Unknown(None)"@,
        InternalModel::Unknown(Some(TokenModel::U8(v))) => "Unknown(Some(U8("@ + decimal_text(
            v as nat,
        ) + ")))"@,
        InternalModel::Unknown(Some(TokenModel::Text(t))) => "Unknown(Some(String("@
            + debug_str_text(t) + ")))"@,
    }
}

/// The text that an operating system command displays as: its name and its
/// argument as `{:?}` writes it.
pub open spec fn osc_type_text(o: OscModel) -> Seq<char> {
    match o {
        OscModel::RequestColorQueryBackground(i) => "RequestColorQueryBackground("@
            + internal_debug_text(i) + ")"@,
        OscModel::RequestColorQueryForeground(i) => "RequestColorQueryForeground("@
            + internal_debug_text(i) + ")"@,
        OscModel::SetTitleBar(t) => "SetTitleBar("@ + debug_str_text(t) + ")"@,
        OscModel::Ftcs(t) => "Ftcs ("@ + debug_str_text(t) + ")"@,
    }
}

impl AnsiOscInternalType {
    /// Appends this value as `{:?}` writes it (see [`internal_debug_text`]).
    pub fn append_debug(&self, s: &mut String)
        ensures
            final(s)@ == old(s)@ + internal_debug_text(self.deep_view()),
    {
        match self {
            AnsiOscInternalType::Query => s.append("Query"),
            AnsiOscInternalType::String(t) => {
                s.append("String(");
                let d = debug_str(t.as_str());
                s.append(d.as_str());
                s.append(")");
                assert(final(s)@ =~= old(s)@ + internal_debug_text(self.deep_view()));
            },
            AnsiOscInternalType::Unknown(None) => s.append("Unknown(None)"),
            AnsiOscInternalType::Unknown(Some(AnsiOscToken::U8(v))) => {
                s.append("Unknown(Some(U8(");
                append_decimal(s, *v as u64);
                s.append(")))");
                assert(final(s)@ =~= old(s)@ + internal_debug_text(self.deep_view()));
            },
            AnsiOscInternalType::Unknown(Some(AnsiOscToken::String(t))) => {
                s.append("Unknown(Some(String(");
                let d = debug_str(t.as_str());
                s.append(d.as_str());
                s.append(")))");
                assert(final(s)@ =~= old(s)@ + internal_debug_text(self.deep_view()));
            },
        }
    }
}

impl AnsiOscType {
    /// The text that this command displays as (see [`osc_type_text`]).
    pub fn to_display_string(&self) -> (s: String)
        ensures
            s@ == osc_type_text(self.deep_view()),
    {
        let mut s = String::new();
        match self {
            AnsiOscType::RequestColorQueryBackground(i) => {
                s.append("RequestColorQueryBackground(");
                i.append_debug(&mut s);
                s.append(")");
            },
            AnsiOscType::RequestColorQueryForeground(i) => {
                s.append("RequestColorQueryForeground(");
                i.append_debug(&mut s);
                s.append(")");
            },
            AnsiOscType::SetTitleBar(t) => {
                s.append("SetTitleBar(");
                let d = debug_str(t.as_str());
                s.append(d.as_str());
                s.append(")");
            },
            AnsiOscType::Ftcs(t) => {
                s.append("Ftcs (");
                let d = debug_str(t.as_str());
                s.append(d.as_str());
                s.append(")");
            },
        }
        assert(s@ =~= osc_type_text(self.deep_view()));
        s
    }
}

} // verus!
