//! The records served by the data provider: categories, questions and
//! users, together with their mathematical views, and the small record
//! types the admin panel exchanges with it.

use vstd::prelude::*;

verus! {

/// A knowledge-base category.  Only categories with `hidden == false` are
/// ever surfaced to chat users; `ordering` decides the keyboard order.
#[derive(Debug)]
pub struct Category {
    pub id: i64,
    pub name: String,
    pub hidden: bool,
    pub ordering: i64,
}

/// Mathematical view of a [`Category`].
#[verifier::ext_equal]
pub ghost struct CategoryV {
    pub id: int,
    pub name: Seq<char>,
    pub hidden: bool,
    pub ordering: int,
}

impl View for Category {
    type V = CategoryV;

    open spec fn view(&self) -> CategoryV {
        CategoryV {
            id: self.id as int,
            name: self.name@,
            hidden: self.hidden,
            ordering: self.ordering as int,
        }
    }
}

impl DeepView for Category {
    type V = CategoryV;

    open spec fn deep_view(&self) -> CategoryV {
        self.view()
    }
}

impl Clone for Category {
    fn clone(&self) -> (r: Self)
        ensures
            r@ == self@,
    {
        Category {
            id: self.id,
            name: self.name.clone(),
            hidden: self.hidden,
            ordering: self.ordering,
        }
    }
}

/// A question with its answer and attachment file names.  `category` is the
/// id of the owning category, if any.
#[derive(Debug)]
pub struct Question {
    pub id: i64,
    pub category: Option<i64>,
    pub question: String,
    pub answer: String,
    pub attachments: Vec<String>,
    pub hidden: bool,
    pub ordering: i64,
}

/// Mathematical view of a [`Question`].
#[verifier::ext_equal]
pub ghost struct QuestionV {
    pub id: int,
    pub category: Option<int>,
    pub question: Seq<char>,
    pub answer: Seq<char>,
    pub attachments: Seq<Seq<char>>,
    pub hidden: bool,
    pub ordering: int,
}

impl View for Question {
    type V = QuestionV;

    open spec fn view(&self) -> QuestionV {
        QuestionV {
            id: self.id as int,
            category: match self.category {
                Some(c) => Some(c as int),
                None => None,
            },
            question: self.question@,
            answer: self.answer@,
            attachments: self.attachments.deep_view(),
            hidden: self.hidden,
            ordering: self.ordering as int,
        }
    }
}

impl DeepView for Question {
    type V = QuestionV;

    open spec fn deep_view(&self) -> QuestionV {
        self.view()
    }
}

impl Clone for Question {
    fn clone(&self) -> (r: Self)
        ensures
            r@ == self@,
    {
        let attachments = self.attachments.clone();
        proof {
            assert(attachments@ =~= self.attachments@);
        }
        Question {
            id: self.id,
            category: self.category,
            question: self.question.clone(),
            answer: self.answer.clone(),
            attachments,
            hidden: self.hidden,
            ordering: self.ordering,
        }
    }
}

/// A registered chat user.  `active` is the authorization source of truth.
#[derive(Debug)]
pub struct User {
    pub id: i64,
    pub username: Option<String>,
    pub first_name: String,
    pub last_name: Option<String>,
    pub is_admin: bool,
    pub active: bool,
}

/// Mathematical view of a [`User`].
#[verifier::ext_equal]
pub ghost struct UserV {
    pub id: int,
    pub username: Option<Seq<char>>,
    pub first_name: Seq<char>,
    pub last_name: Option<Seq<char>>,
    pub is_admin: bool,
    pub active: bool,
}

impl View for User {
    type V = UserV;

    open spec fn view(&self) -> UserV {
        UserV {
            id: self.id as int,
            username: match self.username {
                Some(ref s) => Some(s@),
                None => None,
            },
            first_name: self.first_name@,
            last_name: match self.last_name {
                Some(ref s) => Some(s@),
                None => None,
            },
            is_admin: self.is_admin,
            active: self.active,
        }
    }
}

impl DeepView for User {
    type V = UserV;

    open spec fn deep_view(&self) -> UserV {
        self.view()
    }
}

impl Clone for User {
    fn clone(&self) -> (r: Self)
        ensures
            r@ == self@,
    {
        let username = match &self.username {
            Some(s) => Some(s.clone()),
            None => None,
        };
        let last_name = match &self.last_name {
            Some(s) => Some(s.clone()),
            None => None,
        };
        User {
            id: self.id,
            username,
            first_name: self.first_name.clone(),
            last_name,
            is_admin: self.is_admin,
            active: self.active,
        }
    }
}

/// One row of a reordering request: record `id` is to receive `ordering`.
#[derive(Clone, Copy, Debug, PartialEq, Eq, Structural)]
pub struct Reorder {
    pub id: i64,
    pub ordering: i64,
}

/// An id that arrives from a form as its decimal string.  The admin panel
/// wraps row ids this way; [`crate::forms::parse_i64`] recovers the number.
#[derive(Clone, Copy, Debug, PartialEq, Eq, Structural)]
pub struct Stri64(pub i64);

} // verus!
