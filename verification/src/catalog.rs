//! The data provider's contents, modelled in process: categories,
//! questions and users, with the exact lookup and ordering semantics the
//! persistent store serves.  Loaders fill a [`Catalog`] from wherever the
//! records live; the engine and the admin logic only read and mutate it
//! through the operations here.

use vstd::prelude::*;

verus! {

use crate::models::{Category, CategoryV, Question, QuestionV, User, UserV};

/// Mathematical view of a [`Catalog`].
#[verifier::ext_equal]
pub ghost struct CatalogV {
    pub categories: Seq<CategoryV>,
    pub questions: Seq<QuestionV>,
    pub users: Seq<UserV>,
}

/// Categories are listed by `ordering`, ties broken by ascending id.
pub open spec fn cat_lt(a: CategoryV, b: CategoryV) -> bool {
    a.ordering < b.ordering || (a.ordering == b.ordering && a.id < b.id)
}

/// Questions are listed by `ordering`, ties broken by descending id.
pub open spec fn question_lt(a: QuestionV, b: QuestionV) -> bool {
    a.ordering < b.ordering || (a.ordering == b.ordering && a.id > b.id)
}

/// `s` with `c` placed before the first element it precedes.
pub open spec fn insert_cat_sorted(s: Seq<CategoryV>, c: CategoryV) -> Seq<CategoryV>
    decreases s.len(),
{
    if s.len() == 0 {
        seq![c]
    } else if cat_lt(c, s.first()) {
        seq![c] + s
    } else {
        seq![s.first()] + insert_cat_sorted(s.drop_first(), c)
    }
}

/// `s` sorted by [`cat_lt`], stably, by repeated insertion.
pub open spec fn sort_cats(s: Seq<CategoryV>) -> Seq<CategoryV>
    decreases s.len(),
{
    if s.len() == 0 {
        Seq::empty()
    } else {
        insert_cat_sorted(sort_cats(s.drop_last()), s.last())
    }
}

/// `s` with `q` placed before the first element it precedes.
pub open spec fn insert_question_sorted(s: Seq<QuestionV>, q: QuestionV) -> Seq<QuestionV>
    decreases s.len(),
{
    if s.len() == 0 {
        seq![q]
    } else if question_lt(q, s.first()) {
        seq![q] + s
    } else {
        seq![s.first()] + insert_question_sorted(s.drop_first(), q)
    }
}

/// `s` sorted by [`question_lt`], stably, by repeated insertion.
pub open spec fn sort_questions(s: Seq<QuestionV>) -> Seq<QuestionV>
    decreases s.len(),
{
    if s.len() == 0 {
        Seq::empty()
    } else {
        insert_question_sorted(sort_questions(s.drop_last()), s.last())
    }
}

/// No two elements share an id.
pub open spec fn unique_cat_ids(s: Seq<CategoryV>) -> bool {
    forall|i: int, j: int| 0 <= i < j < s.len() ==> s[i].id != s[j].id
}

/// No two elements share an id.
pub open spec fn unique_question_ids(s: Seq<QuestionV>) -> bool {
    forall|i: int, j: int| 0 <= i < j < s.len() ==> s[i].id != s[j].id
}

/// No two elements share an id.
pub open spec fn unique_user_ids(s: Seq<UserV>) -> bool {
    forall|i: int, j: int| 0 <= i < j < s.len() ==> s[i].id != s[j].id
}

/// The first category with the given id, if any.
pub open spec fn find_cat(s: Seq<CategoryV>, id: int) -> Option<CategoryV>
    decreases s.len(),
{
    if s.len() == 0 {
        None
    } else if s.first().id == id {
        Some(s.first())
    } else {
        find_cat(s.drop_first(), id)
    }
}

/// The first question with the given id, if any.
pub open spec fn find_question(s: Seq<QuestionV>, id: int) -> Option<QuestionV>
    decreases s.len(),
{
    if s.len() == 0 {
        None
    } else if s.first().id == id {
        Some(s.first())
    } else {
        find_question(s.drop_first(), id)
    }
}

/// The first user with the given id, if any.
pub open spec fn find_user(s: Seq<UserV>, id: int) -> Option<UserV>
    decreases s.len(),
{
    if s.len() == 0 {
        None
    } else if s.first().id == id {
        Some(s.first())
    } else {
        find_user(s.drop_first(), id)
    }
}

/// True when `q` belongs, through a category that is itself not hidden and
/// carries `name`, to the public question list of that category.
pub open spec fn joins_public(q: QuestionV, cats: Seq<CategoryV>, name: Seq<char>) -> bool {
    !q.hidden && exists|i: int|
        0 <= i < cats.len() && (#[trigger] cats[i]).name == name && !cats[i].hidden && q.category
            == Some(cats[i].id)
}

/// True when `q` belongs to a category carrying `name` (hidden or not) and
/// its question text is `question`: the lookup the answer handler makes.
pub open spec fn joins_by_name(
    q: QuestionV,
    cats: Seq<CategoryV>,
    name: Seq<char>,
    question: Seq<char>,
) -> bool {
    q.question == question && exists|i: int|
        0 <= i < cats.len() && (#[trigger] cats[i]).name == name && q.category == Some(cats[i].id)
}

/// The first question of `qs` satisfying `joins_by_name`.
pub open spec fn find_question_by_name(
    qs: Seq<QuestionV>,
    cats: Seq<CategoryV>,
    name: Seq<char>,
    question: Seq<char>,
) -> Option<QuestionV>
    decreases qs.len(),
{
    if qs.len() == 0 {
        None
    } else if joins_by_name(qs.first(), cats, name, question) {
        Some(qs.first())
    } else {
        find_question_by_name(qs.drop_first(), cats, name, question)
    }
}

/// The in-process model of the data provider.
pub struct Catalog {
    categories: Vec<Category>,
    questions: Vec<Question>,
    users: Vec<User>,
    next_category_id: i64,
    next_question_id: i64,
}

impl View for Catalog {
    type V = CatalogV;

    closed spec fn view(&self) -> CatalogV {
        CatalogV {
            categories: self.categories.deep_view(),
            questions: self.questions.deep_view(),
            users: self.users.deep_view(),
        }
    }
}

impl Catalog {
    /// Ids are unique in every record class, and the id counters lie above
    /// every id they have handed out.
    pub closed spec fn wf(&self) -> bool {
        &&& unique_cat_ids(self@.categories)
        &&& unique_question_ids(self@.questions)
        &&& unique_user_ids(self@.users)
        &&& forall|i: int|
            0 <= i < self@.categories.len() ==> #[trigger] self@.categories[i].id
                < self.next_category_id
        &&& forall|i: int|
            0 <= i < self@.questions.len() ==> #[trigger] self@.questions[i].id
                < self.next_question_id
    }

    /// An empty catalog.
    pub fn new() -> (r: Self)
        ensures
            r.wf(),
            r@.categories == Seq::<CategoryV>::empty(),
            r@.questions == Seq::<QuestionV>::empty(),
            r@.users == Seq::<UserV>::empty(),
    {
        let r = Catalog {
            categories: Vec::new(),
            questions: Vec::new(),
            users: Vec::new(),
            next_category_id: 1,
            next_question_id: 1,
        };
        proof {
            assert(r@.categories =~= Seq::<CategoryV>::empty());
            assert(r@.questions =~= Seq::<QuestionV>::empty());
            assert(r@.users =~= Seq::<UserV>::empty());
        }
        r
    }
}

/// True when `a` precedes `b` in the category listing.
fn cat_lt_exec(a: &Category, b: &Category) -> (r: bool)
    ensures
        r == cat_lt(a@, b@),
{
    a.ordering < b.ordering || (a.ordering == b.ordering && a.id < b.id)
}

/// True when `a` precedes `b` in the question listing.
fn question_lt_exec(a: &Question, b: &Question) -> (r: bool)
    ensures
        r == question_lt(a@, b@),
{
    a.ordering < b.ordering || (a.ordering == b.ordering && a.id > b.id)
}

/// Splitting view of `insert_cat_sorted`: inserting at the first position
/// whose element the new one precedes.
proof fn lemma_insert_cat_sorted_split(s: Seq<CategoryV>, c: CategoryV, i: int)
    requires
        0 <= i <= s.len(),
        forall|k: int| 0 <= k < i ==> !cat_lt(c, #[trigger] s[k]),
        i < s.len() ==> cat_lt(c, s[i]),
    ensures
        insert_cat_sorted(s, c) == s.take(i) + seq![c] + s.skip(i),
    decreases i,
{
    if i == 0 {
        if s.len() == 0 {
            assert(insert_cat_sorted(s, c) =~= s.take(0) + seq![c] + s.skip(0));
        } else {
            assert(insert_cat_sorted(s, c) =~= s.take(0) + seq![c] + s.skip(0));
        }
    } else {
        lemma_insert_cat_sorted_split(s.drop_first(), c, i - 1);
        assert(s.drop_first().take(i - 1) =~= s.take(i).drop_first());
        assert(s.drop_first().skip(i - 1) =~= s.skip(i));
        assert(seq![s.first()] + (s.take(i).drop_first() + seq![c] + s.skip(i)) =~= s.take(i)
            + seq![c] + s.skip(i));
    }
}

/// Splitting view of `insert_question_sorted`.
proof fn lemma_insert_question_sorted_split(s: Seq<QuestionV>, q: QuestionV, i: int)
    requires
        0 <= i <= s.len(),
        forall|k: int| 0 <= k < i ==> !question_lt(q, #[trigger] s[k]),
        i < s.len() ==> question_lt(q, s[i]),
    ensures
        insert_question_sorted(s, q) == s.take(i) + seq![q] + s.skip(i),
    decreases i,
{
    if i == 0 {
        assert(insert_question_sorted(s, q) =~= s.take(0) + seq![q] + s.skip(0));
    } else {
        lemma_insert_question_sorted_split(s.drop_first(), q, i - 1);
        assert(s.drop_first().take(i - 1) =~= s.take(i).drop_first());
        assert(s.drop_first().skip(i - 1) =~= s.skip(i));
        assert(seq![s.first()] + (s.take(i).drop_first() + seq![q] + s.skip(i)) =~= s.take(i)
            + seq![q] + s.skip(i));
    }
}

/// Places `c` into the already sorted `v` as `insert_cat_sorted` does.
fn sorted_insert_category(v: Vec<Category>, c: Category) -> (r: Vec<Category>)
    ensures
        r.deep_view() == insert_cat_sorted(v.deep_view(), c@),
{
    let ghost sv = v.deep_view();
    let mut out: Vec<Category> = Vec::new();
    let mut i: usize = 0;
    while i < v.len() && !cat_lt_exec(&c, &v[i])
        invariant
            sv == v.deep_view(),
            i <= v@.len(),
            out@.len() == i,
            out.deep_view() =~= sv.take(i as int),
            forall|k: int| 0 <= k < i ==> !cat_lt(c@, #[trigger] sv[k]),
        decreases v@.len() - i,
    {
        out.push(v[i].clone());
        i = i + 1;
        proof {
            assert(out.deep_view() =~= sv.take(i as int));
        }
    }
    let ghost split = i as int;
    proof {
        lemma_insert_cat_sorted_split(sv, c@, split);
    }
    out.push(c);
    while i < v.len()
        invariant
            sv == v.deep_view(),
            0 <= split <= i <= v@.len(),
            out@.len() == i + 1,
            out.deep_view() =~= sv.take(split) + seq![c@] + sv.subrange(split, i as int),
        decreases v@.len() - i,
    {
        out.push(v[i].clone());
        i = i + 1;
        proof {
            assert(sv.take(split).len() == split);
            assert(sv.subrange(split, i as int) =~= sv.subrange(split, i as int - 1).push(
                sv[i as int - 1],
            ));
            assert(out.deep_view() =~= (sv.take(split) + seq![c@] + sv.subrange(
                split,
                i as int - 1,
            )).push(sv[i as int - 1]));
            assert(out.deep_view() =~= sv.take(split) + seq![c@] + sv.subrange(split, i as int));
        }
    }
    proof {
        assert(sv.subrange(split, sv.len() as int) =~= sv.skip(split));
        assert(out.deep_view() =~= sv.take(split) + seq![c@] + sv.skip(split));
    }
    out
}

/// Places `q` into the already sorted `v` as `insert_question_sorted` does.
fn sorted_insert_question(v: Vec<Question>, q: Question) -> (r: Vec<Question>)
    ensures
        r.deep_view() == insert_question_sorted(v.deep_view(), q@),
{
    let ghost sv = v.deep_view();
    let mut out: Vec<Question> = Vec::new();
    let mut i: usize = 0;
    while i < v.len() && !question_lt_exec(&q, &v[i])
        invariant
            sv == v.deep_view(),
            i <= v@.len(),
            out@.len() == i,
            out.deep_view() =~= sv.take(i as int),
            forall|k: int| 0 <= k < i ==> !question_lt(q@, #[trigger] sv[k]),
        decreases v@.len() - i,
    {
        out.push(v[i].clone());
        i = i + 1;
        proof {
            assert(out.deep_view() =~= sv.take(i as int));
        }
    }
    let ghost split = i as int;
    proof {
        lemma_insert_question_sorted_split(sv, q@, split);
    }
    out.push(q);
    while i < v.len()
        invariant
            sv == v.deep_view(),
            0 <= split <= i <= v@.len(),
            out@.len() == i + 1,
            out.deep_view() =~= sv.take(split) + seq![q@] + sv.subrange(split, i as int),
        decreases v@.len() - i,
    {
        out.push(v[i].clone());
        i = i + 1;
        proof {
            assert(sv.take(split).len() == split);
            assert(sv.subrange(split, i as int) =~= sv.subrange(split, i as int - 1).push(
                sv[i as int - 1],
            ));
            assert(out.deep_view() =~= (sv.take(split) + seq![q@] + sv.subrange(
                split,
                i as int - 1,
            )).push(sv[i as int - 1]));
            assert(out.deep_view() =~= sv.take(split) + seq![q@] + sv.subrange(split, i as int));
        }
    }
    proof {
        assert(sv.subrange(split, sv.len() as int) =~= sv.skip(split));
        assert(out.deep_view() =~= sv.take(split) + seq![q@] + sv.skip(split));
    }
    out
}

/// Sorts `v` by the category listing order.
fn sort_categories(v: Vec<Category>) -> (r: Vec<Category>)
    ensures
        r.deep_view() == sort_cats(v.deep_view()),
{
    let ghost sv = v.deep_view();
    let mut out: Vec<Category> = Vec::new();
    let mut i: usize = 0;
    proof {
        assert(out.deep_view() =~= sort_cats(sv.take(0)));
    }
    while i < v.len()
        invariant
            sv == v.deep_view(),
            i <= v@.len(),
            out.deep_view() == sort_cats(sv.take(i as int)),
        decreases v@.len() - i,
    {
        out = sorted_insert_category(out, v[i].clone());
        i = i + 1;
        proof {
            assert(sv.take(i as int).drop_last() =~= sv.take(i as int - 1));
            assert(sv.take(i as int).last() == sv[i as int - 1]);
        }
    }
    proof {
        assert(sv.take(sv.len() as int) =~= sv);
    }
    out
}

/// Sorts `v` by the question listing order.
fn sort_question_vec(v: Vec<Question>) -> (r: Vec<Question>)
    ensures
        r.deep_view() == sort_questions(v.deep_view()),
{
    let ghost sv = v.deep_view();
    let mut out: Vec<Question> = Vec::new();
    let mut i: usize = 0;
    proof {
        assert(out.deep_view() =~= sort_questions(sv.take(0)));
    }
    while i < v.len()
        invariant
            sv == v.deep_view(),
            i <= v@.len(),
            out.deep_view() == sort_questions(sv.take(i as int)),
        decreases v@.len() - i,
    {
        out = sorted_insert_question(out, v[i].clone());
        i = i + 1;
        proof {
            assert(sv.take(i as int).drop_last() =~= sv.take(i as int - 1));
            assert(sv.take(i as int).last() == sv[i as int - 1]);
        }
    }
    proof {
        assert(sv.take(sv.len() as int) =~= sv);
    }
    out
}


/// `find_cat` is decided by the first index carrying `id`.
proof fn lemma_find_cat_index(s: Seq<CategoryV>, id: int, i: int)
    requires
        0 <= i <= s.len(),
        forall|k: int| 0 <= k < i ==> (#[trigger] s[k]).id != id,
        i < s.len() ==> s[i].id == id,
    ensures
        find_cat(s, id) == if i < s.len() {
            Some(s[i])
        } else {
            None::<CategoryV>
        },
    decreases s.len(),
{
    if s.len() > 0 && i > 0 {
        lemma_find_cat_index(s.drop_first(), id, i - 1);
    }
}

/// `find_user` is decided by the first index carrying `id`.
proof fn lemma_find_user_index(s: Seq<UserV>, id: int, i: int)
    requires
        0 <= i <= s.len(),
        forall|k: int| 0 <= k < i ==> (#[trigger] s[k]).id != id,
        i < s.len() ==> s[i].id == id,
    ensures
        find_user(s, id) == if i < s.len() {
            Some(s[i])
        } else {
            None::<UserV>
        },
    decreases s.len(),
{
    if s.len() > 0 && i > 0 {
        lemma_find_user_index(s.drop_first(), id, i - 1);
    }
}

/// `find_question` is decided by the first index carrying `id`.
proof fn lemma_find_question_index(s: Seq<QuestionV>, id: int, i: int)
    requires
        0 <= i <= s.len(),
        forall|k: int| 0 <= k < i ==> (#[trigger] s[k]).id != id,
        i < s.len() ==> s[i].id == id,
    ensures
        find_question(s, id) == if i < s.len() {
            Some(s[i])
        } else {
            None::<QuestionV>
        },
    decreases s.len(),
{
    if s.len() > 0 && i > 0 {
        lemma_find_question_index(s.drop_first(), id, i - 1);
    }
}

/// `find_question_by_name` is decided by the first matching index.
proof fn lemma_find_question_by_name_index(
    qs: Seq<QuestionV>,
    cats: Seq<CategoryV>,
    name: Seq<char>,
    question: Seq<char>,
    i: int,
)
    requires
        0 <= i <= qs.len(),
        forall|k: int| 0 <= k < i ==> !joins_by_name(#[trigger] qs[k], cats, name, question),
        i < qs.len() ==> joins_by_name(qs[i], cats, name, question),
    ensures
        find_question_by_name(qs, cats, name, question) == if i < qs.len() {
            Some(qs[i])
        } else {
            None::<QuestionV>
        },
    decreases qs.len(),
{
    if qs.len() > 0 && i > 0 {
        lemma_find_question_by_name_index(qs.drop_first(), cats, name, question, i - 1);
    }
}

/// True when some category of `cats` carries `name`, is not hidden, and
/// owns `q`, and `q` itself is not hidden.
fn question_joins_public(q: &Question, cats: &Vec<Category>, name: &String) -> (r: bool)
    ensures
        r == joins_public(q@, cats.deep_view(), name@),
{
    let ghost catsv = cats.deep_view();
    if q.hidden {
        return false;
    }
    let qcat = match q.category {
        Some(c) => c,
        None => {
            return false;
        },
    };
    let mut j: usize = 0;
    while j < cats.len()
        invariant
            catsv == cats.deep_view(),
            j <= cats@.len(),
            !q@.hidden,
            q@.category == Some(qcat as int),
            forall|k: int|
                0 <= k < j ==> !((#[trigger] catsv[k]).name == name@ && !catsv[k].hidden
                    && Some(qcat as int) == Some(catsv[k].id)),
        decreases cats@.len() - j,
    {
        let c = &cats[j];
        if !c.hidden && c.name == *name && c.id == qcat {
            proof {
                let jj = j as int;
                assert(0 <= jj < catsv.len());
                assert(catsv[jj].name == name@);
                assert(!catsv[jj].hidden);
                assert(q@.category == Some(catsv[jj].id));
                assert(!q@.hidden);
                assert(joins_public(q@, catsv, name@));
            }
            return true;
        }
        j = j + 1;
    }
    false
}

/// True when some category of `cats` carries `name` (hidden or not) and
/// owns `q`, and `q`'s text is `question`.
fn question_joins_by_name(
    q: &Question,
    cats: &Vec<Category>,
    name: &String,
    question: &String,
) -> (r: bool)
    ensures
        r == joins_by_name(q@, cats.deep_view(), name@, question@),
{
    let ghost catsv = cats.deep_view();
    if !(q.question == *question) {
        return false;
    }
    let qcat = match q.category {
        Some(c) => c,
        None => {
            return false;
        },
    };
    let mut j: usize = 0;
    while j < cats.len()
        invariant
            catsv == cats.deep_view(),
            j <= cats@.len(),
            q@.question == question@,
            q@.category == Some(qcat as int),
            forall|k: int|
                0 <= k < j ==> !((#[trigger] catsv[k]).name == name@ && Some(qcat as int) == Some(
                    catsv[k].id,
                )),
        decreases cats@.len() - j,
    {
        let c = &cats[j];
        if c.name == *name && c.id == qcat {
            proof {
                assert((#[trigger] catsv[j as int]).name == name@);
                assert(joins_by_name(q@, catsv, name@, question@));
            }
            return true;
        }
        j = j + 1;
    }
    false
}

impl Catalog {
    /// The id the next created category will receive.
    pub closed spec fn spec_next_category_id(&self) -> int {
        self.next_category_id as int
    }

    /// The id the next created question will receive.
    pub closed spec fn spec_next_question_id(&self) -> int {
        self.next_question_id as int
    }

    /// The category with the given id, if any.
    pub fn get_category(&self, id: i64) -> (r: Option<Category>)
        ensures
            r.deep_view() == find_cat(self@.categories, id as int),
    {
        let ghost catsv = self@.categories;
        let mut i: usize = 0;
        while i < self.categories.len()
            invariant
                catsv == self@.categories,
                i <= catsv.len(),
                forall|k: int| 0 <= k < i ==> (#[trigger] catsv[k]).id != id as int,
            decreases catsv.len() - i,
        {
            if self.categories[i].id == id {
                let r = Some(self.categories[i].clone());
                proof {
                    lemma_find_cat_index(catsv, id as int, i as int);
                }
                return r;
            }
            i = i + 1;
        }
        proof {
            lemma_find_cat_index(catsv, id as int, catsv.len() as int);
        }
        None
    }

    /// The user with the given id, if any.
    pub fn get_user(&self, id: i64) -> (r: Option<User>)
        ensures
            r.deep_view() == find_user(self@.users, id as int),
    {
        let ghost usersv = self@.users;
        let mut i: usize = 0;
        while i < self.users.len()
            invariant
                usersv == self@.users,
                i <= usersv.len(),
                forall|k: int| 0 <= k < i ==> (#[trigger] usersv[k]).id != id as int,
            decreases usersv.len() - i,
        {
            if self.users[i].id == id {
                let r = Some(self.users[i].clone());
                proof {
                    lemma_find_user_index(usersv, id as int, i as int);
                }
                return r;
            }
            i = i + 1;
        }
        proof {
            lemma_find_user_index(usersv, id as int, usersv.len() as int);
        }
        None
    }

    /// The question with the given id, if any.
    pub fn get_question_by_id(&self, id: i64) -> (r: Option<Question>)
        ensures
            r.deep_view() == find_question(self@.questions, id as int),
    {
        let ghost qsv = self@.questions;
        let mut i: usize = 0;
        while i < self.questions.len()
            invariant
                qsv == self@.questions,
                i <= qsv.len(),
                forall|k: int| 0 <= k < i ==> (#[trigger] qsv[k]).id != id as int,
            decreases qsv.len() - i,
        {
            if self.questions[i].id == id {
                let r = Some(self.questions[i].clone());
                proof {
                    lemma_find_question_index(qsv, id as int, i as int);
                }
                return r;
            }
            i = i + 1;
        }
        proof {
            lemma_find_question_index(qsv, id as int, qsv.len() as int);
        }
        None
    }

    /// Registers a user under the caller-chosen id; refused when the id is
    /// taken, as the store's primary key would refuse it.
    pub fn create_user(
        &mut self,
        id: i64,
        username: Option<String>,
        first_name: String,
        last_name: Option<String>,
        is_admin: bool,
        active: bool,
    ) -> (r: Result<i64, ()>)
        requires
            old(self).wf(),
        ensures
            final(self).wf(),
            final(self)@.categories == old(self)@.categories,
            final(self)@.questions == old(self)@.questions,
            r is Ok <==> find_user(old(self)@.users, id as int) is None,
            r is Ok ==> final(self)@.users == old(self)@.users.push(
                UserV {
                    id: id as int,
                    username: match username {
                        Some(ref s) => Some(s@),
                        None => None,
                    },
                    first_name: first_name@,
                    last_name: match last_name {
                        Some(ref s) => Some(s@),
                        None => None,
                    },
                    is_admin,
                    active,
                },
            ),
            r is Err ==> final(self)@.users == old(self)@.users,
    {
        let ghost usersv = self@.users;
        if self.get_user(id).is_some() {
            proof {
                assert(self@.users =~= old(self)@.users);
            }
            return Err(());
        }
        proof {
            lemma_find_user_none_no_id(usersv, id as int);
        }
        let user = User { id, username, first_name, last_name, is_admin, active };
        self.users.push(user);
        proof {
            assert(self@.users =~= usersv.push(
                UserV {
                    id: id as int,
                    username: match username {
                        Some(ref s) => Some(s@),
                        None => None,
                    },
                    first_name: first_name@,
                    last_name: match last_name {
                        Some(ref s) => Some(s@),
                        None => None,
                    },
                    is_admin,
                    active,
                },
            ));
            assert(self@.categories =~= old(self)@.categories);
            assert(self@.questions =~= old(self)@.questions);
        }
        Ok(id)
    }

    /// Adds a category under a fresh id and returns that id; refused only
    /// when the id counter is exhausted.
    pub fn create_category(&mut self, name: String, hidden: bool, ordering: i64) -> (r: Result<
        i64,
        (),
    >)
        requires
            old(self).wf(),
        ensures
            final(self).wf(),
            final(self)@.questions == old(self)@.questions,
            final(self)@.users == old(self)@.users,
            r is Ok <==> old(self).spec_next_category_id() < i64::MAX,
            r matches Ok(id) ==> {
                &&& id as int == old(self).spec_next_category_id()
                &&& final(self)@.categories == old(self)@.categories.push(
                    CategoryV { id: id as int, name: name@, hidden, ordering: ordering as int },
                )
                &&& find_cat(old(self)@.categories, id as int) is None
                &&& final(self).spec_next_category_id() == old(self).spec_next_category_id() + 1
            },
            r is Err ==> final(self)@ == old(self)@,
    {
        if self.next_category_id == i64::MAX {
            return Err(());
        }
        let ghost catsv = self@.categories;
        let id = self.next_category_id;
        let cat = Category { id, name, hidden, ordering };
        self.categories.push(cat);
        self.next_category_id = self.next_category_id + 1;
        proof {
            assert(self@.categories =~= catsv.push(
                CategoryV { id: id as int, name: name@, hidden, ordering: ordering as int },
            ));
            assert(self@.questions =~= old(self)@.questions);
            assert(self@.users =~= old(self)@.users);
            assert(forall|k: int|
                0 <= k < catsv.len() ==> (#[trigger] catsv[k]).id != id as int);
            lemma_find_cat_no_id(catsv, id as int);
        }
        Ok(id)
    }

    /// Adds a question under a fresh id and returns that id; refused only
    /// when the id counter is exhausted.
    pub fn create_question(
        &mut self,
        question: String,
        answer: String,
        category: Option<i64>,
        attachments: Vec<String>,
        hidden: bool,
        ordering: i64,
    ) -> (r: Result<i64, ()>)
        requires
            old(self).wf(),
        ensures
            final(self).wf(),
            final(self)@.categories == old(self)@.categories,
            final(self)@.users == old(self)@.users,
            r is Ok <==> old(self).spec_next_question_id() < i64::MAX,
            r matches Ok(id) ==> {
                &&& id as int == old(self).spec_next_question_id()
                &&& final(self)@.questions == old(self)@.questions.push(
                    QuestionV {
                        id: id as int,
                        category: match category {
                            Some(c) => Some(c as int),
                            None => None,
                        },
                        question: question@,
                        answer: answer@,
                        attachments: attachments.deep_view(),
                        hidden,
                        ordering: ordering as int,
                    },
                )
                &&& final(self).spec_next_question_id() == old(self).spec_next_question_id() + 1
            },
            r is Err ==> final(self)@ == old(self)@,
    {
        if self.next_question_id == i64::MAX {
            return Err(());
        }
        let ghost qsv = self@.questions;
        let id = self.next_question_id;
        let q = Question { id, category, question, answer, attachments, hidden, ordering };
        self.questions.push(q);
        self.next_question_id = self.next_question_id + 1;
        proof {
            assert(self@.questions =~= qsv.push(
                QuestionV {
                    id: id as int,
                    category: match category {
                        Some(c) => Some(c as int),
                        None => None,
                    },
                    question: question@,
                    answer: answer@,
                    attachments: attachments.deep_view(),
                    hidden,
                    ordering: ordering as int,
                },
            ));
            assert(self@.categories =~= old(self)@.categories);
            assert(self@.users =~= old(self)@.users);
        }
        Ok(id)
    }

    /// All categories, in listing order.
    pub fn get_all_categories(&self) -> (r: Vec<Category>)
        ensures
            r.deep_view() == sort_cats(self@.categories),
    {
        let mut all: Vec<Category> = Vec::new();
        let mut i: usize = 0;
        while i < self.categories.len()
            invariant
                i <= self@.categories.len(),
                all.deep_view() =~= self@.categories.take(i as int),
                all@.len() == i,
            decreases self@.categories.len() - i,
        {
            all.push(self.categories[i].clone());
            i = i + 1;
            proof {
                assert(all.deep_view() =~= self@.categories.take(i as int));
            }
        }
        proof {
            assert(all.deep_view() =~= self@.categories);
        }
        sort_categories(all)
    }

    /// The categories surfaced to chat users: the non-hidden ones, in
    /// listing order.
    pub fn get_public_categories(&self) -> (r: Vec<Category>)
        ensures
            r.deep_view() == sort_cats(self@.categories.filter(|c: CategoryV| !c.hidden)),
    {
        let ghost catsv = self@.categories;
        let pred = Ghost(|c: CategoryV| !c.hidden);
        let mut selected: Vec<Category> = Vec::new();
        let mut i: usize = 0;
        while i < self.categories.len()
            invariant
                catsv == self@.categories,
                i <= catsv.len(),
                selected.deep_view() =~= catsv.take(i as int).filter(|c: CategoryV| !c.hidden),
            decreases catsv.len() - i,
        {
            let ghost prefix = catsv.take(i as int);
            if !self.categories[i].hidden {
                selected.push(self.categories[i].clone());
            }
            i = i + 1;
            proof {
                reveal(Seq::filter);
                assert(catsv.take(i as int).drop_last() =~= prefix);
                assert(selected.deep_view() =~= catsv.take(i as int).filter(
                    |c: CategoryV| !c.hidden,
                ));
            }
        }
        proof {
            assert(catsv.take(catsv.len() as int) =~= catsv);
        }
        sort_categories(selected)
    }

    /// The questions surfaced for a public category carrying `category`:
    /// non-hidden questions of non-hidden categories with that name, in
    /// listing order.
    pub fn get_public_questions_for_public_category(&self, category: &String) -> (r: Vec<Question>)
        ensures
            r.deep_view() == sort_questions(
                self@.questions.filter(
                    |q: QuestionV| joins_public(q, self@.categories, category@),
                ),
            ),
    {
        let ghost qsv = self@.questions;
        let ghost catsv = self@.categories;
        let mut selected: Vec<Question> = Vec::new();
        let mut i: usize = 0;
        while i < self.questions.len()
            invariant
                qsv == self@.questions,
                catsv == self@.categories,
                i <= qsv.len(),
                selected.deep_view() =~= qsv.take(i as int).filter(
                    |q: QuestionV| joins_public(q, catsv, category@),
                ),
            decreases qsv.len() - i,
        {
            let ghost prefix = qsv.take(i as int);
            if question_joins_public(&self.questions[i], &self.categories, category) {
                selected.push(self.questions[i].clone());
            }
            i = i + 1;
            proof {
                reveal(Seq::filter);
                assert(catsv == self.categories.deep_view());
                assert(qsv.take(i as int).drop_last() =~= prefix);
                assert(selected.deep_view() =~= qsv.take(i as int).filter(
                    |q: QuestionV| joins_public(q, catsv, category@),
                ));
            }
        }
        proof {
            assert(qsv.take(qsv.len() as int) =~= qsv);
        }
        sort_question_vec(selected)
    }

    /// The first question whose text is `question` under a category
    /// carrying `category`, hidden or not: the lookup behind an answer.
    pub fn get_question_by_category_name(&self, question: &String, category: &String) -> (r: Option<
        Question,
    >)
        ensures
            r.deep_view() == find_question_by_name(
                self@.questions,
                self@.categories,
                category@,
                question@,
            ),
    {
        let ghost qsv = self@.questions;
        let ghost catsv = self@.categories;
        let mut i: usize = 0;
        while i < self.questions.len()
            invariant
                qsv == self@.questions,
                catsv == self@.categories,
                i <= qsv.len(),
                forall|k: int|
                    0 <= k < i ==> !joins_by_name(#[trigger] qsv[k], catsv, category@, question@),
            decreases qsv.len() - i,
        {
            proof {
                assert(catsv == self.categories.deep_view());
            }
            if question_joins_by_name(&self.questions[i], &self.categories, category, question) {
                let r = Some(self.questions[i].clone());
                proof {
                    lemma_find_question_by_name_index(qsv, catsv, category@, question@, i as int);
                }
                return r;
            }
            i = i + 1;
        }
        proof {
            lemma_find_question_by_name_index(qsv, catsv, category@, question@, qsv.len() as int);
        }
        None
    }
}

/// A sequence in which no element carries `id` finds nothing.
proof fn lemma_find_cat_no_id(s: Seq<CategoryV>, id: int)
    requires
        forall|k: int| 0 <= k < s.len() ==> (#[trigger] s[k]).id != id,
    ensures
        find_cat(s, id) is None,
{
    lemma_find_cat_index(s, id, s.len() as int);
}

/// A hit of `find_user` is carried by some element.
proof fn lemma_find_user_some_has_id(s: Seq<UserV>, id: int)
    requires
        find_user(s, id) is Some,
    ensures
        has_user_id(s, id),
    decreases s.len(),
{
    if s.len() > 0 {
        if s.first().id == id {
            assert((s[0]).id == id);
        } else {
            lemma_find_user_some_has_id(s.drop_first(), id);
            let j = choose|j: int|
                0 <= j < s.drop_first().len() && (#[trigger] s.drop_first()[j]).id == id;
            assert((s[j + 1]).id == id);
        }
    }
}

/// A user id that `find_user` misses is carried by no element.
proof fn lemma_find_user_none_no_id(s: Seq<UserV>, id: int)
    requires
        find_user(s, id) is None,
    ensures
        forall|k: int| 0 <= k < s.len() ==> (#[trigger] s[k]).id != id,
    decreases s.len(),
{
    if s.len() > 0 {
        lemma_find_user_none_no_id(s.drop_first(), id);
        assert forall|k: int| 0 <= k < s.len() implies (#[trigger] s[k]).id != id by {
            if k > 0 {
                assert(s[k] == s.drop_first()[k - 1]);
            }
        }
    }
}


use crate::models::Reorder;

/// `s` with every record carrying `id` given the new name and hidden
/// flag; `ordering` is untouched, as the edit form does not carry it.
pub open spec fn update_cat_fields(
    s: Seq<CategoryV>,
    id: int,
    name: Seq<char>,
    hidden: bool,
) -> Seq<CategoryV> {
    Seq::new(
        s.len(),
        |i: int|
            if s[i].id == id {
                CategoryV { id: s[i].id, name, hidden, ordering: s[i].ordering }
            } else {
                s[i]
            },
    )
}

/// `s` with every record carrying `id` given the new content fields;
/// `ordering` is untouched.
pub open spec fn update_question_fields(
    s: Seq<QuestionV>,
    id: int,
    category: Option<int>,
    question: Seq<char>,
    answer: Seq<char>,
    attachments: Seq<Seq<char>>,
    hidden: bool,
) -> Seq<QuestionV> {
    Seq::new(
        s.len(),
        |i: int|
            if s[i].id == id {
                QuestionV {
                    id: s[i].id,
                    category,
                    question,
                    answer,
                    attachments,
                    hidden,
                    ordering: s[i].ordering,
                }
            } else {
                s[i]
            },
    )
}

/// `s` with every record carrying `u.id` replaced by `u` wholesale.
pub open spec fn update_user_fields(s: Seq<UserV>, u: UserV) -> Seq<UserV> {
    Seq::new(s.len(), |i: int| if s[i].id == u.id { u } else { s[i] })
}

/// `s` with the record carrying `id` given the new ordering.
pub open spec fn set_cat_ordering(s: Seq<CategoryV>, id: int, ordering: int) -> Seq<CategoryV> {
    Seq::new(
        s.len(),
        |i: int|
            if s[i].id == id {
                CategoryV { id: s[i].id, name: s[i].name, hidden: s[i].hidden, ordering }
            } else {
                s[i]
            },
    )
}

/// `s` with the record carrying `id` given the new ordering.
pub open spec fn set_question_ordering(s: Seq<QuestionV>, id: int, ordering: int) -> Seq<
    QuestionV,
> {
    Seq::new(
        s.len(),
        |i: int|
            if s[i].id == id {
                QuestionV {
                    id: s[i].id,
                    category: s[i].category,
                    question: s[i].question,
                    answer: s[i].answer,
                    attachments: s[i].attachments,
                    hidden: s[i].hidden,
                    ordering,
                }
            } else {
                s[i]
            },
    )
}

/// The reordering rows applied in order: a later row for the same id
/// wins.
pub open spec fn apply_cat_reorders(s: Seq<CategoryV>, rs: Seq<Reorder>) -> Seq<CategoryV>
    decreases rs.len(),
{
    if rs.len() == 0 {
        s
    } else {
        apply_cat_reorders(
            set_cat_ordering(s, rs.first().id as int, rs.first().ordering as int),
            rs.drop_first(),
        )
    }
}

/// The reordering rows applied in order: a later row for the same id
/// wins.
pub open spec fn apply_question_reorders(s: Seq<QuestionV>, rs: Seq<Reorder>) -> Seq<QuestionV>
    decreases rs.len(),
{
    if rs.len() == 0 {
        s
    } else {
        apply_question_reorders(
            set_question_ordering(s, rs.first().id as int, rs.first().ordering as int),
            rs.drop_first(),
        )
    }
}

/// Filtering keeps id-uniqueness: the kept records are a subsequence.
proof fn lemma_filter_unique_cat_ids(s: Seq<CategoryV>, pred: spec_fn(CategoryV) -> bool)
    requires
        unique_cat_ids(s),
    ensures
        unique_cat_ids(s.filter(pred)),
        forall|i: int|
            0 <= i < s.filter(pred).len() ==> s.contains(#[trigger] s.filter(pred)[i]),
    decreases s.len(),
{
    reveal(Seq::filter);
    if s.len() > 0 {
        let sub = s.drop_last().filter(pred);
        let out = s.filter(pred);
        assert(unique_cat_ids(s.drop_last()));
        lemma_filter_unique_cat_ids(s.drop_last(), pred);
        assert forall|i: int| 0 <= i < out.len() implies s.contains(#[trigger] out[i]) by {
            if i < sub.len() {
                assert(s.drop_last().contains(sub[i]));
                let j = choose|j: int| 0 <= j < s.drop_last().len() && s.drop_last()[j] == sub[i];
                assert(s[j] == out[i]);
            } else {
                assert(out[i] == s.last());
            }
        }
        assert forall|i: int, j: int| 0 <= i < j < out.len() implies out[i].id != out[j].id by {
            if j < sub.len() {
            } else if pred(s.last()) && j == sub.len() {
                assert(s.drop_last().contains(sub[i]));
                let k = choose|k: int|
                    0 <= k < s.drop_last().len() && s.drop_last()[k] == sub[i];
                assert(s[k].id != s[s.len() - 1].id);
            }
        }
    }
}

/// Filtering keeps id-uniqueness: the kept records are a subsequence.
proof fn lemma_filter_unique_question_ids(s: Seq<QuestionV>, pred: spec_fn(QuestionV) -> bool)
    requires
        unique_question_ids(s),
    ensures
        unique_question_ids(s.filter(pred)),
        forall|i: int|
            0 <= i < s.filter(pred).len() ==> s.contains(#[trigger] s.filter(pred)[i]),
    decreases s.len(),
{
    reveal(Seq::filter);
    if s.len() > 0 {
        let sub = s.drop_last().filter(pred);
        let out = s.filter(pred);
        assert(unique_question_ids(s.drop_last()));
        lemma_filter_unique_question_ids(s.drop_last(), pred);
        assert forall|i: int| 0 <= i < out.len() implies s.contains(#[trigger] out[i]) by {
            if i < sub.len() {
                assert(s.drop_last().contains(sub[i]));
                let j = choose|j: int| 0 <= j < s.drop_last().len() && s.drop_last()[j] == sub[i];
                assert(s[j] == out[i]);
            } else {
                assert(out[i] == s.last());
            }
        }
        assert forall|i: int, j: int| 0 <= i < j < out.len() implies out[i].id != out[j].id by {
            if j < sub.len() {
            } else if pred(s.last()) && j == sub.len() {
                assert(s.drop_last().contains(sub[i]));
                let k = choose|k: int|
                    0 <= k < s.drop_last().len() && s.drop_last()[k] == sub[i];
                assert(s[k].id != s[s.len() - 1].id);
            }
        }
    }
}

/// Filtering keeps id-uniqueness: the kept records are a subsequence.
proof fn lemma_filter_unique_user_ids(s: Seq<UserV>, pred: spec_fn(UserV) -> bool)
    requires
        unique_user_ids(s),
    ensures
        unique_user_ids(s.filter(pred)),
        forall|i: int|
            0 <= i < s.filter(pred).len() ==> s.contains(#[trigger] s.filter(pred)[i]),
    decreases s.len(),
{
    reveal(Seq::filter);
    if s.len() > 0 {
        let sub = s.drop_last().filter(pred);
        let out = s.filter(pred);
        assert(unique_user_ids(s.drop_last()));
        lemma_filter_unique_user_ids(s.drop_last(), pred);
        assert forall|i: int| 0 <= i < out.len() implies s.contains(#[trigger] out[i]) by {
            if i < sub.len() {
                assert(s.drop_last().contains(sub[i]));
                let j = choose|j: int| 0 <= j < s.drop_last().len() && s.drop_last()[j] == sub[i];
                assert(s[j] == out[i]);
            } else {
                assert(out[i] == s.last());
            }
        }
        assert forall|i: int, j: int| 0 <= i < j < out.len() implies out[i].id != out[j].id by {
            if j < sub.len() {
            } else if pred(s.last()) && j == sub.len() {
                assert(s.drop_last().contains(sub[i]));
                let k = choose|k: int|
                    0 <= k < s.drop_last().len() && s.drop_last()[k] == sub[i];
                assert(s[k].id != s[s.len() - 1].id);
            }
        }
    }
}

impl Catalog {
    /// Renames a category and sets its visibility; its ordering stays.
    pub fn update_category(&mut self, id: i64, name: String, hidden: bool)
        requires
            old(self).wf(),
        ensures
            final(self).wf(),
            final(self)@.categories == update_cat_fields(
                old(self)@.categories,
                id as int,
                name@,
                hidden,
            ),
            final(self)@.questions == old(self)@.questions,
            final(self)@.users == old(self)@.users,
            final(self).spec_next_category_id() == old(self).spec_next_category_id(),
    {
        let ghost catsv = self@.categories;
        let ghost target = update_cat_fields(catsv, id as int, name@, hidden);
        let mut out: Vec<Category> = Vec::new();
        let mut i: usize = 0;
        while i < self.categories.len()
            invariant
                catsv == self@.categories,
                target == update_cat_fields(catsv, id as int, name@, hidden),
                i <= catsv.len(),
                out@.len() == i,
                forall|k: int| 0 <= k < i ==> out.deep_view()[k] == #[trigger] target[k],
            decreases catsv.len() - i,
        {
            let c = &self.categories[i];
            if c.id == id {
                out.push(
                    Category { id: c.id, name: name.clone(), hidden, ordering: c.ordering },
                );
            } else {
                out.push(c.clone());
            }
            i = i + 1;
        }
        proof {
            assert(out.deep_view() =~= target);
        }
        self.categories = out;
        proof {
            assert(self@.questions =~= old(self)@.questions);
            assert(self@.users =~= old(self)@.users);
            assert forall|k: int| 0 <= k < target.len() implies (#[trigger] target[k]).id
                == catsv[k].id by {}
        }
    }

    /// Removes the category carrying `id`; other records keep their order.
    pub fn delete_category(&mut self, id: i64)
        requires
            old(self).wf(),
        ensures
            final(self).wf(),
            final(self)@.categories == old(self)@.categories.filter(
                |c: CategoryV| c.id != id as int,
            ),
            final(self)@.questions == old(self)@.questions,
            final(self)@.users == old(self)@.users,
            final(self).spec_next_category_id() == old(self).spec_next_category_id(),
    {
        let ghost catsv = self@.categories;
        let mut out: Vec<Category> = Vec::new();
        let mut i: usize = 0;
        while i < self.categories.len()
            invariant
                catsv == self@.categories,
                i <= catsv.len(),
                out.deep_view() =~= catsv.take(i as int).filter(|c: CategoryV| c.id != id as int),
            decreases catsv.len() - i,
        {
            let ghost prefix = catsv.take(i as int);
            if !(self.categories[i].id == id) {
                out.push(self.categories[i].clone());
            }
            i = i + 1;
            proof {
                reveal(Seq::filter);
                assert(catsv.take(i as int).drop_last() =~= prefix);
                assert(out.deep_view() =~= catsv.take(i as int).filter(
                    |c: CategoryV| c.id != id as int,
                ));
            }
        }
        proof {
            assert(catsv.take(catsv.len() as int) =~= catsv);
        }
        self.categories = out;
        proof {
            lemma_filter_unique_cat_ids(catsv, |c: CategoryV| c.id != id as int);
            let kept = catsv.filter(|c: CategoryV| c.id != id as int);
            assert forall|k: int|
                0 <= k < kept.len() implies (#[trigger] kept[k]).id
                < self.next_category_id by {
                assert(catsv.contains(kept[k]));
                let j = choose|j: int| 0 <= j < catsv.len() && catsv[j] == kept[k];
                assert(catsv[j].id < self.next_category_id);
            }
            assert(self@.questions =~= old(self)@.questions);
            assert(self@.users =~= old(self)@.users);
        }
    }

    /// Applies a batch of ordering rows to the categories, in order.
    pub fn reorder_categories(&mut self, orders: &Vec<Reorder>)
        requires
            old(self).wf(),
        ensures
            final(self).wf(),
            final(self)@.categories == apply_cat_reorders(old(self)@.categories, orders@),
            final(self)@.questions == old(self)@.questions,
            final(self)@.users == old(self)@.users,
            final(self).spec_next_category_id() == old(self).spec_next_category_id(),
    {
        let ghost orig = self@.categories;
        let ghost total = apply_cat_reorders(orig, orders@);
        let mut k: usize = 0;
        proof {
            assert(orders@.skip(0) =~= orders@);
        }
        while k < orders.len()
            invariant
                old(self).wf(),
                k <= orders@.len(),
                self@.questions == old(self)@.questions,
                self@.users == old(self)@.users,
                self.spec_next_category_id() == old(self).spec_next_category_id(),
                self.spec_next_question_id() == old(self).spec_next_question_id(),
                total == apply_cat_reorders(orig, orders@),
                apply_cat_reorders(self@.categories, orders@.skip(k as int)) == total,
                self@.categories.len() == orig.len(),
                forall|i: int|
                    0 <= i < orig.len() ==> (#[trigger] self@.categories[i]).id == orig[i].id,
            decreases orders@.len() - k,
        {
            let row = orders[k];
            let ghost before = self@.categories;
            let mut out: Vec<Category> = Vec::new();
            let mut i: usize = 0;
            while i < self.categories.len()
                invariant
                    before == self@.categories,
                    i <= before.len(),
                    out@.len() == i,
                    forall|j: int|
                        0 <= j < i ==> out.deep_view()[j] == #[trigger] set_cat_ordering(
                            before,
                            row.id as int,
                            row.ordering as int,
                        )[j],
                decreases before.len() - i,
            {
                let c = &self.categories[i];
                if c.id == row.id {
                    out.push(
                        Category {
                            id: c.id,
                            name: c.name.clone(),
                            hidden: c.hidden,
                            ordering: row.ordering,
                        },
                    );
                } else {
                    out.push(c.clone());
                }
                i = i + 1;
            }
            proof {
                assert(out.deep_view() =~= set_cat_ordering(
                    before,
                    row.id as int,
                    row.ordering as int,
                ));
            }
            self.categories = out;
            k = k + 1;
            proof {
                assert(orders@.skip(k as int - 1).first() == row);
                assert(orders@.skip(k as int - 1).drop_first() =~= orders@.skip(k as int));
                assert(apply_cat_reorders(self@.categories, orders@.skip(k as int)) == total);
            }
        }
        proof {
            assert(orders@.skip(orders@.len() as int) =~= Seq::<Reorder>::empty());
        }
    }

    /// All questions, in listing order.
    pub fn get_all_questions(&self) -> (r: Vec<Question>)
        ensures
            r.deep_view() == sort_questions(self@.questions),
    {
        let mut all: Vec<Question> = Vec::new();
        let mut i: usize = 0;
        while i < self.questions.len()
            invariant
                i <= self@.questions.len(),
                all@.len() == i,
                all.deep_view() =~= self@.questions.take(i as int),
            decreases self@.questions.len() - i,
        {
            all.push(self.questions[i].clone());
            i = i + 1;
            proof {
                assert(all.deep_view() =~= self@.questions.take(i as int));
            }
        }
        proof {
            assert(all.deep_view() =~= self@.questions);
        }
        sort_question_vec(all)
    }

    /// The questions that are not hidden, in listing order.
    pub fn get_public_questions(&self) -> (r: Vec<Question>)
        ensures
            r.deep_view() == sort_questions(self@.questions.filter(|q: QuestionV| !q.hidden)),
    {
        let ghost qsv = self@.questions;
        let mut selected: Vec<Question> = Vec::new();
        let mut i: usize = 0;
        while i < self.questions.len()
            invariant
                qsv == self@.questions,
                i <= qsv.len(),
                selected.deep_view() =~= qsv.take(i as int).filter(|q: QuestionV| !q.hidden),
            decreases qsv.len() - i,
        {
            let ghost prefix = qsv.take(i as int);
            if !self.questions[i].hidden {
                selected.push(self.questions[i].clone());
            }
            i = i + 1;
            proof {
                reveal(Seq::filter);
                assert(qsv.take(i as int).drop_last() =~= prefix);
                assert(selected.deep_view() =~= qsv.take(i as int).filter(
                    |q: QuestionV| !q.hidden,
                ));
            }
        }
        proof {
            assert(qsv.take(qsv.len() as int) =~= qsv);
        }
        sort_question_vec(selected)
    }

    /// The questions belonging to the category with `category_id`, hidden
    /// or not, in listing order.
    pub fn get_questions_by_category_id(&self, category_id: i64) -> (r: Vec<Question>)
        ensures
            r.deep_view() == sort_questions(
                self@.questions.filter(
                    |q: QuestionV| q.category == Some(category_id as int),
                ),
            ),
    {
        let ghost qsv = self@.questions;
        let mut selected: Vec<Question> = Vec::new();
        let mut i: usize = 0;
        while i < self.questions.len()
            invariant
                qsv == self@.questions,
                i <= qsv.len(),
                selected.deep_view() =~= qsv.take(i as int).filter(
                    |q: QuestionV| q.category == Some(category_id as int),
                ),
            decreases qsv.len() - i,
        {
            let ghost prefix = qsv.take(i as int);
            let matches_cat = match self.questions[i].category {
                Some(c) => c == category_id,
                None => false,
            };
            if matches_cat {
                selected.push(self.questions[i].clone());
            }
            i = i + 1;
            proof {
                reveal(Seq::filter);
                assert(qsv.take(i as int).drop_last() =~= prefix);
                assert(selected.deep_view() =~= qsv.take(i as int).filter(
                    |q: QuestionV| q.category == Some(category_id as int),
                ));
            }
        }
        proof {
            assert(qsv.take(qsv.len() as int) =~= qsv);
        }
        sort_question_vec(selected)
    }

    /// Rewrites a question's content fields; its ordering stays.
    pub fn update_question(
        &mut self,
        id: i64,
        category: Option<i64>,
        question: String,
        answer: String,
        attachments: Vec<String>,
        hidden: bool,
    )
        requires
            old(self).wf(),
        ensures
            final(self).wf(),
            final(self)@.questions == update_question_fields(
                old(self)@.questions,
                id as int,
                match category {
                    Some(c) => Some(c as int),
                    None => None,
                },
                question@,
                answer@,
                attachments.deep_view(),
                hidden,
            ),
            final(self)@.categories == old(self)@.categories,
            final(self)@.users == old(self)@.users,
            final(self).spec_next_question_id() == old(self).spec_next_question_id(),
    {
        let ghost qsv = self@.questions;
        let ghost target = update_question_fields(
            qsv,
            id as int,
            match category {
                Some(c) => Some(c as int),
                None => None,
            },
            question@,
            answer@,
            attachments.deep_view(),
            hidden,
        );
        let mut out: Vec<Question> = Vec::new();
        let mut i: usize = 0;
        while i < self.questions.len()
            invariant
                qsv == self@.questions,
                target == update_question_fields(
                    qsv,
                    id as int,
                    match category {
                        Some(c) => Some(c as int),
                        None => None,
                    },
                    question@,
                    answer@,
                    attachments.deep_view(),
                    hidden,
                ),
                i <= qsv.len(),
                out@.len() == i,
                forall|k: int| 0 <= k < i ==> out.deep_view()[k] == #[trigger] target[k],
            decreases qsv.len() - i,
        {
            let q = &self.questions[i];
            if q.id == id {
                let att = attachments.clone();
                proof {
                    assert(att.deep_view() =~= attachments.deep_view());
                }
                out.push(
                    Question {
                        id: q.id,
                        category,
                        question: question.clone(),
                        answer: answer.clone(),
                        attachments: att,
                        hidden,
                        ordering: q.ordering,
                    },
                );
            } else {
                out.push(q.clone());
            }
            i = i + 1;
        }
        proof {
            assert(out.deep_view() =~= target);
        }
        self.questions = out;
        proof {
            assert(self@.categories =~= old(self)@.categories);
            assert(self@.users =~= old(self)@.users);
            assert forall|k: int| 0 <= k < target.len() implies (#[trigger] target[k]).id
                == qsv[k].id by {}
        }
    }

    /// Removes the question carrying `id`.
    pub fn delete_question(&mut self, id: i64)
        requires
            old(self).wf(),
        ensures
            final(self).wf(),
            final(self)@.questions == old(self)@.questions.filter(
                |q: QuestionV| q.id != id as int,
            ),
            final(self)@.categories == old(self)@.categories,
            final(self)@.users == old(self)@.users,
            final(self).spec_next_question_id() == old(self).spec_next_question_id(),
    {
        let ghost qsv = self@.questions;
        let mut out: Vec<Question> = Vec::new();
        let mut i: usize = 0;
        while i < self.questions.len()
            invariant
                qsv == self@.questions,
                i <= qsv.len(),
                out.deep_view() =~= qsv.take(i as int).filter(|q: QuestionV| q.id != id as int),
            decreases qsv.len() - i,
        {
            let ghost prefix = qsv.take(i as int);
            if !(self.questions[i].id == id) {
                out.push(self.questions[i].clone());
            }
            i = i + 1;
            proof {
                reveal(Seq::filter);
                assert(qsv.take(i as int).drop_last() =~= prefix);
                assert(out.deep_view() =~= qsv.take(i as int).filter(
                    |q: QuestionV| q.id != id as int,
                ));
            }
        }
        proof {
            assert(qsv.take(qsv.len() as int) =~= qsv);
        }
        self.questions = out;
        proof {
            lemma_filter_unique_question_ids(qsv, |q: QuestionV| q.id != id as int);
            let kept = qsv.filter(|q: QuestionV| q.id != id as int);
            assert forall|k: int|
                0 <= k < kept.len() implies (#[trigger] kept[k]).id
                < self.next_question_id by {
                assert(qsv.contains(kept[k]));
                let j = choose|j: int| 0 <= j < qsv.len() && qsv[j] == kept[k];
                assert(qsv[j].id < self.next_question_id);
            }
            assert(self@.categories =~= old(self)@.categories);
            assert(self@.users =~= old(self)@.users);
        }
    }

    /// Applies a batch of ordering rows to the questions, in order.
    pub fn reorder_questions(&mut self, orders: &Vec<Reorder>)
        requires
            old(self).wf(),
        ensures
            final(self).wf(),
            final(self)@.questions == apply_question_reorders(old(self)@.questions, orders@),
            final(self)@.categories == old(self)@.categories,
            final(self)@.users == old(self)@.users,
            final(self).spec_next_question_id() == old(self).spec_next_question_id(),
    {
        let ghost orig = self@.questions;
        let ghost total = apply_question_reorders(orig, orders@);
        let mut k: usize = 0;
        proof {
            assert(orders@.skip(0) =~= orders@);
        }
        while k < orders.len()
            invariant
                old(self).wf(),
                k <= orders@.len(),
                self@.categories == old(self)@.categories,
                self@.users == old(self)@.users,
                self.spec_next_category_id() == old(self).spec_next_category_id(),
                self.spec_next_question_id() == old(self).spec_next_question_id(),
                total == apply_question_reorders(orig, orders@),
                apply_question_reorders(self@.questions, orders@.skip(k as int)) == total,
                self@.questions.len() == orig.len(),
                forall|i: int|
                    0 <= i < orig.len() ==> (#[trigger] self@.questions[i]).id == orig[i].id,
            decreases orders@.len() - k,
        {
            let row = orders[k];
            let ghost before = self@.questions;
            let mut out: Vec<Question> = Vec::new();
            let mut i: usize = 0;
            while i < self.questions.len()
                invariant
                    before == self@.questions,
                    i <= before.len(),
                    out@.len() == i,
                    forall|j: int|
                        0 <= j < i ==> out.deep_view()[j] == #[trigger] set_question_ordering(
                            before,
                            row.id as int,
                            row.ordering as int,
                        )[j],
                decreases before.len() - i,
            {
                let q = &self.questions[i];
                if q.id == row.id {
                    let mut updated = q.clone();
                    updated.ordering = row.ordering;
                    out.push(updated);
                } else {
                    out.push(q.clone());
                }
                i = i + 1;
            }
            proof {
                assert(out.deep_view() =~= set_question_ordering(
                    before,
                    row.id as int,
                    row.ordering as int,
                ));
            }
            self.questions = out;
            k = k + 1;
            proof {
                assert(orders@.skip(k as int - 1).first() == row);
                assert(orders@.skip(k as int - 1).drop_first() =~= orders@.skip(k as int));
                assert(apply_question_reorders(self@.questions, orders@.skip(k as int)) == total);
            }
        }
        proof {
            assert(orders@.skip(orders@.len() as int) =~= Seq::<Reorder>::empty());
        }
    }

    /// All registered users, in registration order.
    pub fn get_users(&self) -> (r: Vec<User>)
        ensures
            r.deep_view() == self@.users,
    {
        let mut all: Vec<User> = Vec::new();
        let mut i: usize = 0;
        while i < self.users.len()
            invariant
                i <= self@.users.len(),
                all@.len() == i,
                all.deep_view() =~= self@.users.take(i as int),
            decreases self@.users.len() - i,
        {
            all.push(self.users[i].clone());
            i = i + 1;
            proof {
                assert(all.deep_view() =~= self@.users.take(i as int));
            }
        }
        proof {
            assert(all.deep_view() =~= self@.users);
        }
        all
    }

    /// Replaces the whole record of the user carrying `user.id`; refused
    /// when no such user exists, as the row lookup would be.
    pub fn update_user(&mut self, user: User) -> (r: Result<(), ()>)
        requires
            old(self).wf(),
        ensures
            final(self).wf(),
            final(self)@.categories == old(self)@.categories,
            final(self)@.questions == old(self)@.questions,
            r is Ok <==> find_user(old(self)@.users, user@.id as int) is Some,
            r is Ok ==> final(self)@.users == update_user_fields(old(self)@.users, user@),
            r is Err ==> final(self)@.users == old(self)@.users,
    {
        if self.get_user(user.id).is_none() {
            proof {
                assert(self@.users =~= old(self)@.users);
            }
            return Err(());
        }
        let ghost usersv = self@.users;
        let ghost target = update_user_fields(usersv, user@);
        let mut out: Vec<User> = Vec::new();
        let mut i: usize = 0;
        while i < self.users.len()
            invariant
                usersv == self@.users,
                target == update_user_fields(usersv, user@),
                i <= usersv.len(),
                out@.len() == i,
                user@ == user.view(),
                forall|k: int| 0 <= k < i ==> out.deep_view()[k] == #[trigger] target[k],
            decreases usersv.len() - i,
        {
            let u = &self.users[i];
            if u.id == user.id {
                out.push(user.clone());
            } else {
                out.push(u.clone());
            }
            i = i + 1;
        }
        proof {
            assert(out.deep_view() =~= target);
        }
        self.users = out;
        proof {
            assert(self@.categories =~= old(self)@.categories);
            assert(self@.questions =~= old(self)@.questions);
            assert forall|k: int| 0 <= k < target.len() implies (#[trigger] target[k]).id
                == usersv[k].id by {}
        }
        Ok(())
    }

    /// Removes the user carrying `id`; refused when no such user exists.
    pub fn delete_user(&mut self, id: i64) -> (r: Result<(), ()>)
        requires
            old(self).wf(),
        ensures
            final(self).wf(),
            final(self)@.categories == old(self)@.categories,
            final(self)@.questions == old(self)@.questions,
            r is Ok <==> find_user(old(self)@.users, id as int) is Some,
            r is Ok ==> final(self)@.users == old(self)@.users.filter(
                |u: UserV| u.id != id as int,
            ),
            r is Err ==> final(self)@.users == old(self)@.users,
    {
        if self.get_user(id).is_none() {
            proof {
                assert(self@.users =~= old(self)@.users);
            }
            return Err(());
        }
        let ghost usersv = self@.users;
        let mut out: Vec<User> = Vec::new();
        let mut i: usize = 0;
        while i < self.users.len()
            invariant
                usersv == self@.users,
                i <= usersv.len(),
                out.deep_view() =~= usersv.take(i as int).filter(|u: UserV| u.id != id as int),
            decreases usersv.len() - i,
        {
            let ghost prefix = usersv.take(i as int);
            if !(self.users[i].id == id) {
                out.push(self.users[i].clone());
            }
            i = i + 1;
            proof {
                reveal(Seq::filter);
                assert(usersv.take(i as int).drop_last() =~= prefix);
                assert(out.deep_view() =~= usersv.take(i as int).filter(
                    |u: UserV| u.id != id as int,
                ));
            }
        }
        proof {
            assert(usersv.take(usersv.len() as int) =~= usersv);
        }
        self.users = out;
        proof {
            lemma_filter_unique_user_ids(usersv, |u: UserV| u.id != id as int);
            assert(self@.categories =~= old(self)@.categories);
            assert(self@.questions =~= old(self)@.questions);
        }
        Ok(())
    }
}


/// True when some record of `s` carries `id`.
pub open spec fn has_cat_id(s: Seq<CategoryV>, id: int) -> bool {
    exists|i: int| 0 <= i < s.len() && (#[trigger] s[i]).id == id
}

/// True when some record of `s` carries `id`.
pub open spec fn has_question_id(s: Seq<QuestionV>, id: int) -> bool {
    exists|i: int| 0 <= i < s.len() && (#[trigger] s[i]).id == id
}

/// True when some record of `s` carries `id`.
pub open spec fn has_user_id(s: Seq<UserV>, id: int) -> bool {
    exists|i: int| 0 <= i < s.len() && (#[trigger] s[i]).id == id
}

/// The category import applied to `current`, one incoming record at a
/// time: a record whose id was already present before the import updates
/// it in place; any other is created under the next fresh id.
pub open spec fn spec_import_cats(
    current: Seq<CategoryV>,
    existing: Seq<CategoryV>,
    incoming: Seq<CategoryV>,
    next_id: int,
) -> (Seq<CategoryV>, int)
    decreases incoming.len(),
{
    if incoming.len() == 0 {
        (current, next_id)
    } else {
        let inc = incoming.first();
        if has_cat_id(existing, inc.id) {
            spec_import_cats(
                update_cat_fields(current, inc.id, inc.name, inc.hidden),
                existing,
                incoming.drop_first(),
                next_id,
            )
        } else {
            spec_import_cats(
                current.push(
                    CategoryV { id: next_id, name: inc.name, hidden: inc.hidden, ordering: inc.ordering },
                ),
                existing,
                incoming.drop_first(),
                next_id + 1,
            )
        }
    }
}

/// The question import applied to `current`, in the same shape as
/// [`spec_import_cats`]; an update keeps the stored ordering, a creation
/// takes the incoming one.
pub open spec fn spec_import_questions(
    current: Seq<QuestionV>,
    existing: Seq<QuestionV>,
    incoming: Seq<QuestionV>,
    next_id: int,
) -> (Seq<QuestionV>, int)
    decreases incoming.len(),
{
    if incoming.len() == 0 {
        (current, next_id)
    } else {
        let inc = incoming.first();
        if has_question_id(existing, inc.id) {
            spec_import_questions(
                update_question_fields(
                    current,
                    inc.id,
                    inc.category,
                    inc.question,
                    inc.answer,
                    inc.attachments,
                    inc.hidden,
                ),
                existing,
                incoming.drop_first(),
                next_id,
            )
        } else {
            spec_import_questions(
                current.push(
                    QuestionV {
                        id: next_id,
                        category: inc.category,
                        question: inc.question,
                        answer: inc.answer,
                        attachments: inc.attachments,
                        hidden: inc.hidden,
                        ordering: inc.ordering,
                    },
                ),
                existing,
                incoming.drop_first(),
                next_id + 1,
            )
        }
    }
}

/// The user import applied to `current`: a record whose id is present is
/// replaced wholesale; any other is registered under its own id.
pub open spec fn spec_import_users(current: Seq<UserV>, incoming: Seq<UserV>) -> Seq<UserV>
    decreases incoming.len(),
{
    if incoming.len() == 0 {
        current
    } else {
        let inc = incoming.first();
        if has_user_id(current, inc.id) {
            spec_import_users(update_user_fields(current, inc), incoming.drop_first())
        } else {
            spec_import_users(current.push(inc), incoming.drop_first())
        }
    }
}

/// True when some element of `v` carries `id`.
fn cat_id_among(v: &Vec<Category>, id: i64) -> (r: bool)
    ensures
        r == has_cat_id(v.deep_view(), id as int),
{
    let mut j: usize = 0;
    while j < v.len()
        invariant
            j <= v@.len(),
            forall|k: int| 0 <= k < j ==> (#[trigger] v.deep_view()[k]).id != id as int,
        decreases v@.len() - j,
    {
        if v[j].id == id {
            proof {
                assert((v.deep_view()[j as int]).id == id as int);
            }
            return true;
        }
        j = j + 1;
    }
    false
}

/// True when some element of `v` carries `id`.
fn question_id_among(v: &Vec<Question>, id: i64) -> (r: bool)
    ensures
        r == has_question_id(v.deep_view(), id as int),
{
    let mut j: usize = 0;
    while j < v.len()
        invariant
            j <= v@.len(),
            forall|k: int| 0 <= k < j ==> (#[trigger] v.deep_view()[k]).id != id as int,
        decreases v@.len() - j,
    {
        if v[j].id == id {
            proof {
                assert((v.deep_view()[j as int]).id == id as int);
            }
            return true;
        }
        j = j + 1;
    }
    false
}

impl Catalog {
    /// Synchronizes the categories with an imported set: records absent
    /// from it are deleted, present ones are updated in place, new ones
    /// are created under fresh ids in import order.
    pub fn import_categories(&mut self, incoming: &Vec<Category>)
        requires
            old(self).wf(),
            old(self).spec_next_category_id() + incoming@.len() <= i64::MAX,
        ensures
            final(self).wf(),
            final(self)@.questions == old(self)@.questions,
            final(self)@.users == old(self)@.users,
            ({
                let kept = old(self)@.categories.filter(
                    |c: CategoryV| has_cat_id(incoming.deep_view(), c.id),
                );
                let outcome = spec_import_cats(
                    kept,
                    old(self)@.categories,
                    incoming.deep_view(),
                    old(self).spec_next_category_id(),
                );
                final(self)@.categories == outcome.0 && final(self).spec_next_category_id()
                    == outcome.1
            }),
    {
        let ghost existing = self@.categories;
        let ghost incv = incoming.deep_view();
        let existing_snapshot = self.get_all_ids_categories();

        // delete every record whose id the import does not carry
        let mut kept: Vec<Category> = Vec::new();
        let mut i: usize = 0;
        while i < self.categories.len()
            invariant
                existing == self@.categories,
                incv == incoming.deep_view(),
                i <= existing.len(),
                kept.deep_view() =~= existing.take(i as int).filter(
                    |c: CategoryV| has_cat_id(incv, c.id),
                ),
            decreases existing.len() - i,
        {
            let ghost prefix = existing.take(i as int);
            if cat_id_among(incoming, self.categories[i].id) {
                kept.push(self.categories[i].clone());
            }
            i = i + 1;
            proof {
                reveal(Seq::filter);
                assert(existing.take(i as int).drop_last() =~= prefix);
                assert(kept.deep_view() =~= existing.take(i as int).filter(
                    |c: CategoryV| has_cat_id(incv, c.id),
                ));
            }
        }
        proof {
            assert(existing.take(existing.len() as int) =~= existing);
        }
        self.categories = kept;
        let ghost kept0 = self@.categories;
        proof {
            lemma_filter_unique_cat_ids(existing, |c: CategoryV| has_cat_id(incv, c.id));
            assert forall|k: int|
                0 <= k < kept0.len() implies (#[trigger] kept0[k]).id
                < self.next_category_id by {
                assert(existing.contains(kept0[k]));
                let j = choose|j: int| 0 <= j < existing.len() && existing[j] == kept0[k];
                assert(existing[j].id < self.next_category_id);
            }
        }

        // update the present records, create the new ones
        let ghost total = spec_import_cats(kept0, existing, incv, self.spec_next_category_id());
        let mut k: usize = 0;
        proof {
            assert(incv.skip(0) =~= incv);
        }
        while k < incoming.len()
            invariant
                incv == incoming.deep_view(),
                existing_snapshot@.len() == existing.len(),
                forall|j: int|
                    0 <= j < existing.len() ==> existing_snapshot@[j] as int == (
                    #[trigger] existing[j]).id,
                k <= incv.len(),
                self.spec_next_category_id() + (incv.len() - k) <= i64::MAX,
                unique_cat_ids(self@.categories),
                forall|j: int|
                    0 <= j < self@.categories.len() ==> (#[trigger] self@.categories[j]).id
                        < self.spec_next_category_id(),
                unique_question_ids(self@.questions),
                unique_user_ids(self@.users),
                forall|j: int|
                    0 <= j < self@.questions.len() ==> (#[trigger] self@.questions[j]).id
                        < self.spec_next_question_id(),
                self@.questions == old(self)@.questions,
                self@.users == old(self)@.users,
                total == spec_import_cats(kept0, existing, incv, old(
                    self,
                ).spec_next_category_id()),
                spec_import_cats(
                    self@.categories,
                    existing,
                    incv.skip(k as int),
                    self.spec_next_category_id(),
                ) == total,
            decreases incv.len() - k,
        {
            let inc = &incoming[k];
            let exists_before = id_in_snapshot(&existing_snapshot, inc.id);
            proof {
                if exists_before {
                    let j = choose|j: int|
                        0 <= j < existing_snapshot@.len() && existing_snapshot@[j] == inc.id;
                    assert((existing[j]).id == inc@.id);
                } else {
                    assert forall|m: int|
                        0 <= m < existing.len() implies (#[trigger] existing[m]).id
                        != inc@.id by {
                        assert(existing_snapshot@[m] != inc.id);
                    }
                }
                assert(exists_before == has_cat_id(existing, inc@.id));
                assert(incv.skip(k as int).first() == inc@);
                assert(incv.skip(k as int).drop_first() =~= incv.skip(k as int + 1));
            }
            if exists_before {
                self.update_category(inc.id, inc.name.clone(), inc.hidden);
            } else {
                let created = self.create_category(inc.name.clone(), inc.hidden, inc.ordering);
                proof {
                    assert(created is Ok);
                }
            }
            k = k + 1;
            proof {
                assert(spec_import_cats(
                    self@.categories,
                    existing,
                    incv.skip(k as int),
                    self.spec_next_category_id(),
                ) == total);
            }
        }
        proof {
            assert(incv.skip(incv.len() as int) =~= Seq::<CategoryV>::empty());
        }
    }

    /// The ids of all categories, in listing position order.
    fn get_all_ids_categories(&self) -> (r: Vec<i64>)
        ensures
            r@.len() == self@.categories.len(),
            forall|j: int|
                0 <= j < r@.len() ==> r@[j] as int == (#[trigger] self@.categories[j]).id,
    {
        let mut out: Vec<i64> = Vec::new();
        let mut i: usize = 0;
        while i < self.categories.len()
            invariant
                i <= self@.categories.len(),
                out@.len() == i,
                forall|j: int|
                    0 <= j < i ==> out@[j] as int == (#[trigger] self@.categories[j]).id,
            decreases self@.categories.len() - i,
        {
            out.push(self.categories[i].id);
            i = i + 1;
        }
        out
    }

    /// The ids of all questions, in listing position order.
    fn get_all_ids_questions(&self) -> (r: Vec<i64>)
        ensures
            r@.len() == self@.questions.len(),
            forall|j: int|
                0 <= j < r@.len() ==> r@[j] as int == (#[trigger] self@.questions[j]).id,
    {
        let mut out: Vec<i64> = Vec::new();
        let mut i: usize = 0;
        while i < self.questions.len()
            invariant
                i <= self@.questions.len(),
                out@.len() == i,
                forall|j: int|
                    0 <= j < i ==> out@[j] as int == (#[trigger] self@.questions[j]).id,
            decreases self@.questions.len() - i,
        {
            out.push(self.questions[i].id);
            i = i + 1;
        }
        out
    }

    /// Synchronizes the questions with an imported set, as
    /// [`Catalog::import_categories`] does for categories.
    pub fn import_questions(&mut self, incoming: &Vec<Question>)
        requires
            old(self).wf(),
            old(self).spec_next_question_id() + incoming@.len() <= i64::MAX,
        ensures
            final(self).wf(),
            final(self)@.categories == old(self)@.categories,
            final(self)@.users == old(self)@.users,
            ({
                let kept = old(self)@.questions.filter(
                    |q: QuestionV| has_question_id(incoming.deep_view(), q.id),
                );
                let outcome = spec_import_questions(
                    kept,
                    old(self)@.questions,
                    incoming.deep_view(),
                    old(self).spec_next_question_id(),
                );
                final(self)@.questions == outcome.0 && final(self).spec_next_question_id()
                    == outcome.1
            }),
    {
        let ghost existing = self@.questions;
        let ghost incv = incoming.deep_view();
        let existing_snapshot = self.get_all_ids_questions();

        let mut kept: Vec<Question> = Vec::new();
        let mut i: usize = 0;
        while i < self.questions.len()
            invariant
                existing == self@.questions,
                incv == incoming.deep_view(),
                i <= existing.len(),
                kept.deep_view() =~= existing.take(i as int).filter(
                    |q: QuestionV| has_question_id(incv, q.id),
                ),
            decreases existing.len() - i,
        {
            let ghost prefix = existing.take(i as int);
            if question_id_among(incoming, self.questions[i].id) {
                kept.push(self.questions[i].clone());
            }
            i = i + 1;
            proof {
                reveal(Seq::filter);
                assert(existing.take(i as int).drop_last() =~= prefix);
                assert(kept.deep_view() =~= existing.take(i as int).filter(
                    |q: QuestionV| has_question_id(incv, q.id),
                ));
            }
        }
        proof {
            assert(existing.take(existing.len() as int) =~= existing);
        }
        self.questions = kept;
        let ghost kept0 = self@.questions;
        proof {
            lemma_filter_unique_question_ids(existing, |q: QuestionV| has_question_id(incv, q.id));
            assert forall|j: int|
                0 <= j < kept0.len() implies (#[trigger] kept0[j]).id
                < self.next_question_id by {
                assert(existing.contains(kept0[j]));
                let m = choose|m: int| 0 <= m < existing.len() && existing[m] == kept0[j];
                assert(existing[m].id < self.next_question_id);
            }
        }

        let ghost total = spec_import_questions(
            kept0,
            existing,
            incv,
            self.spec_next_question_id(),
        );
        let mut k: usize = 0;
        proof {
            assert(incv.skip(0) =~= incv);
        }
        while k < incoming.len()
            invariant
                incv == incoming.deep_view(),
                existing_snapshot@.len() == existing.len(),
                forall|j: int|
                    0 <= j < existing.len() ==> existing_snapshot@[j] as int == (
                    #[trigger] existing[j]).id,
                k <= incv.len(),
                self.spec_next_question_id() + (incv.len() - k) <= i64::MAX,
                unique_question_ids(self@.questions),
                forall|j: int|
                    0 <= j < self@.questions.len() ==> (#[trigger] self@.questions[j]).id
                        < self.spec_next_question_id(),
                unique_cat_ids(self@.categories),
                unique_user_ids(self@.users),
                forall|j: int|
                    0 <= j < self@.categories.len() ==> (#[trigger] self@.categories[j]).id
                        < self.spec_next_category_id(),
                self@.categories == old(self)@.categories,
                self@.users == old(self)@.users,
                total == spec_import_questions(kept0, existing, incv, old(
                    self,
                ).spec_next_question_id()),
                spec_import_questions(
                    self@.questions,
                    existing,
                    incv.skip(k as int),
                    self.spec_next_question_id(),
                ) == total,
            decreases incv.len() - k,
        {
            let inc = &incoming[k];
            let exists_before = id_in_snapshot(&existing_snapshot, inc.id);
            proof {
                if exists_before {
                    let j = choose|j: int|
                        0 <= j < existing_snapshot@.len() && existing_snapshot@[j] == inc.id;
                    assert((existing[j]).id == inc@.id);
                } else {
                    assert forall|m: int|
                        0 <= m < existing.len() implies (#[trigger] existing[m]).id
                        != inc@.id by {
                        assert(existing_snapshot@[m] != inc.id);
                    }
                }
                assert(exists_before == has_question_id(existing, inc@.id));
                assert(incv.skip(k as int).first() == inc@);
                assert(incv.skip(k as int).drop_first() =~= incv.skip(k as int + 1));
            }
            if exists_before {
                let att = inc.attachments.clone();
                proof {
                    assert(att.deep_view() =~= inc.attachments.deep_view());
                }
                self.update_question(
                    inc.id,
                    inc.category,
                    inc.question.clone(),
                    inc.answer.clone(),
                    att,
                    inc.hidden,
                );
            } else {
                let att = inc.attachments.clone();
                proof {
                    assert(att.deep_view() =~= inc.attachments.deep_view());
                }
                let created = self.create_question(
                    inc.question.clone(),
                    inc.answer.clone(),
                    inc.category,
                    att,
                    inc.hidden,
                    inc.ordering,
                );
                proof {
                    assert(created is Ok);
                }
            }
            k = k + 1;
            proof {
                assert(spec_import_questions(
                    self@.questions,
                    existing,
                    incv.skip(k as int),
                    self.spec_next_question_id(),
                ) == total);
            }
        }
        proof {
            assert(incv.skip(incv.len() as int) =~= Seq::<QuestionV>::empty());
        }
    }

    /// Synchronizes the users with an imported set: absent ones are
    /// deleted, present ones replaced wholesale, new ones registered
    /// under their own ids, in import order.
    pub fn import_users(&mut self, incoming: &Vec<User>)
        requires
            old(self).wf(),
        ensures
            final(self).wf(),
            final(self)@.categories == old(self)@.categories,
            final(self)@.questions == old(self)@.questions,
            ({
                let kept = old(self)@.users.filter(
                    |u: UserV| has_user_id(incoming.deep_view(), u.id),
                );
                final(self)@.users == spec_import_users(kept, incoming.deep_view())
            }),
    {
        let ghost existing = self@.users;
        let ghost incv = incoming.deep_view();

        let mut kept: Vec<User> = Vec::new();
        let mut i: usize = 0;
        while i < self.users.len()
            invariant
                existing == self@.users,
                incv == incoming.deep_view(),
                i <= existing.len(),
                kept.deep_view() =~= existing.take(i as int).filter(
                    |u: UserV| has_user_id(incv, u.id),
                ),
            decreases existing.len() - i,
        {
            let ghost prefix = existing.take(i as int);
            let mut found = false;
            let mut j: usize = 0;
            while j < incoming.len()
                invariant
                    incv == incoming.deep_view(),
                    i < existing.len(),
                    existing == self@.users,
                    j <= incv.len(),
                    found ==> has_user_id(incv, existing[i as int].id),
                    !found ==> forall|m: int|
                        0 <= m < j ==> (#[trigger] incv[m]).id != existing[i as int].id,
                decreases incv.len() - j,
            {
                if incoming[j].id == self.users[i].id {
                    found = true;
                    proof {
                        assert((incv[j as int]).id == existing[i as int].id);
                    }
                }
                j = j + 1;
            }
            if found {
                kept.push(self.users[i].clone());
            }
            i = i + 1;
            proof {
                reveal(Seq::filter);
                assert(existing.take(i as int).drop_last() =~= prefix);
                assert(kept.deep_view() =~= existing.take(i as int).filter(
                    |u: UserV| has_user_id(incv, u.id),
                ));
            }
        }
        proof {
            assert(existing.take(existing.len() as int) =~= existing);
        }
        self.users = kept;
        let ghost kept0 = self@.users;
        proof {
            lemma_filter_unique_user_ids(existing, |u: UserV| has_user_id(incv, u.id));
        }

        let ghost total = spec_import_users(kept0, incv);
        let mut k: usize = 0;
        proof {
            assert(incv.skip(0) =~= incv);
        }
        while k < incoming.len()
            invariant
                incv == incoming.deep_view(),
                k <= incv.len(),
                unique_user_ids(self@.users),
                unique_cat_ids(self@.categories),
                unique_question_ids(self@.questions),
                forall|j: int|
                    0 <= j < self@.categories.len() ==> (#[trigger] self@.categories[j]).id
                        < self.spec_next_category_id(),
                forall|j: int|
                    0 <= j < self@.questions.len() ==> (#[trigger] self@.questions[j]).id
                        < self.spec_next_question_id(),
                self@.categories == old(self)@.categories,
                self@.questions == old(self)@.questions,
                total == spec_import_users(kept0, incv),
                spec_import_users(self@.users, incv.skip(k as int)) == total,
            decreases incv.len() - k,
        {
            let inc = &incoming[k];
            proof {
                assert(incv.skip(k as int).first() == inc@);
                assert(incv.skip(k as int).drop_first() =~= incv.skip(k as int + 1));
            }
            let present = self.get_user(inc.id).is_some();
            if present {
                proof {
                    lemma_find_user_some_has_id(self@.users, inc@.id as int);
                    assert(has_user_id(self@.users, inc@.id));
                }
                let updated = self.update_user(inc.clone());
                proof {
                    assert(updated is Ok);
                }
            } else {
                proof {
                    lemma_find_user_none_no_id(self@.users, inc@.id as int);
                    assert(!has_user_id(self@.users, inc@.id));
                }
                let ghost prev_users = self@.users;
                let created = self.create_user(
                    inc.id,
                    match &inc.username {
                        Some(u) => Some(u.clone()),
                        None => None,
                    },
                    inc.first_name.clone(),
                    match &inc.last_name {
                        Some(u) => Some(u.clone()),
                        None => None,
                    },
                    inc.is_admin,
                    inc.active,
                );
                proof {
                    assert(created is Ok);
                    assert(self@.users =~= prev_users.push(inc@));
                }
            }
            k = k + 1;
            proof {
                assert(spec_import_users(self@.users, incv.skip(k as int)) == total);
            }
        }
        proof {
            assert(incv.skip(incv.len() as int) =~= Seq::<UserV>::empty());
        }
    }
}

/// True when `id` occurs among the snapshot of ids.
fn id_in_snapshot(ids: &Vec<i64>, id: i64) -> (r: bool)
    ensures
        r == exists|j: int| 0 <= j < ids@.len() && ids@[j] == id,
{
    let mut j: usize = 0;
    while j < ids.len()
        invariant
            j <= ids@.len(),
            forall|k: int| 0 <= k < j ==> ids@[k] != id,
        decreases ids@.len() - j,
    {
        if ids[j] == id {
            return true;
        }
        j = j + 1;
    }
    false
}


/// True when `s` is laid out in listing order: no later element precedes
/// an earlier one.
pub open spec fn cats_listed(s: Seq<CategoryV>) -> bool {
    forall|i: int, j: int| 0 <= i < j < s.len() ==> !cat_lt(#[trigger] s[j], #[trigger] s[i])
}

/// True when `s` is laid out in listing order.
pub open spec fn questions_listed(s: Seq<QuestionV>) -> bool {
    forall|i: int, j: int|
        0 <= i < j < s.len() ==> !question_lt(#[trigger] s[j], #[trigger] s[i])
}

/// Insertion adds exactly the new element.
proof fn lemma_insert_cat_sorted_elems(s: Seq<CategoryV>, c: CategoryV)
    ensures
        insert_cat_sorted(s, c).len() == s.len() + 1,
        forall|k: int|
            0 <= k < insert_cat_sorted(s, c).len() ==> (#[trigger] insert_cat_sorted(s, c)[k] == c
                || s.contains(insert_cat_sorted(s, c)[k])),
        forall|k: int| 0 <= k < s.len() ==> insert_cat_sorted(s, c).contains(#[trigger] s[k]),
        insert_cat_sorted(s, c).contains(c),
    decreases s.len(),
{
    let out = insert_cat_sorted(s, c);
    if s.len() == 0 {
        assert(out[0] == c);
    } else if cat_lt(c, s.first()) {
        assert(out[0] == c);
        assert forall|k: int| 0 <= k < s.len() implies out.contains(#[trigger] s[k]) by {
            assert(out[k + 1] == s[k]);
        }
    } else {
        lemma_insert_cat_sorted_elems(s.drop_first(), c);
        let rest = insert_cat_sorted(s.drop_first(), c);
        assert forall|k: int|
            0 <= k < out.len() implies (#[trigger] out[k] == c || s.contains(out[k])) by {
            if k == 0 {
                assert(out[0] == s[0]);
            } else {
                assert(out[k] == rest[k - 1]);
                if rest[k - 1] != c {
                    let m = choose|m: int|
                        0 <= m < s.drop_first().len() && s.drop_first()[m] == rest[k - 1];
                    assert(s[m + 1] == rest[k - 1]);
                }
            }
        }
        assert forall|k: int| 0 <= k < s.len() implies out.contains(#[trigger] s[k]) by {
            if k == 0 {
                assert(out[0] == s[0]);
            } else {
                assert(rest.contains(s.drop_first()[k - 1]));
                let m = choose|m: int| 0 <= m < rest.len() && rest[m] == s[k];
                assert(out[m + 1] == s[k]);
            }
        }
        let m = choose|m: int| 0 <= m < rest.len() && rest[m] == c;
        assert(out[m + 1] == c);
    }
}

/// Insertion keeps the listing order.
proof fn lemma_insert_cat_sorted_ordered(s: Seq<CategoryV>, c: CategoryV)
    requires
        cats_listed(s),
    ensures
        cats_listed(insert_cat_sorted(s, c)),
    decreases s.len(),
{
    let out = insert_cat_sorted(s, c);
    if s.len() == 0 {
    } else if cat_lt(c, s.first()) {
        assert forall|i: int, j: int| 0 <= i < j < out.len() implies !cat_lt(
            #[trigger] out[j],
            #[trigger] out[i],
        ) by {
            if i == 0 {
                assert(out[j] == s[j - 1]);
                if j > 1 {
                    assert(!cat_lt(s[j - 1], s[0]));
                }
            } else {
                assert(out[i] == s[i - 1] && out[j] == s[j - 1]);
            }
        }
    } else {
        assert(cats_listed(s.drop_first()));
        lemma_insert_cat_sorted_ordered(s.drop_first(), c);
        lemma_insert_cat_sorted_elems(s.drop_first(), c);
        let rest = insert_cat_sorted(s.drop_first(), c);
        assert forall|i: int, j: int| 0 <= i < j < out.len() implies !cat_lt(
            #[trigger] out[j],
            #[trigger] out[i],
        ) by {
            if i == 0 {
                assert(out[j] == rest[j - 1]);
                if rest[j - 1] == c {
                    assert(!cat_lt(c, s[0]));
                } else {
                    let m = choose|m: int|
                        0 <= m < s.drop_first().len() && s.drop_first()[m] == rest[j - 1];
                    assert(s[m + 1] == rest[j - 1]);
                    assert(!cat_lt(s[m + 1], s[0]));
                }
            } else {
                assert(out[i] == rest[i - 1] && out[j] == rest[j - 1]);
            }
        }
    }
}

/// The listing the category queries return: ordered, and holding exactly
/// the records given to the sort.
pub proof fn lemma_sort_cats_ensures(s: Seq<CategoryV>)
    ensures
        cats_listed(sort_cats(s)),
        sort_cats(s).len() == s.len(),
        forall|k: int| 0 <= k < s.len() ==> sort_cats(s).contains(#[trigger] s[k]),
        forall|k: int|
            0 <= k < sort_cats(s).len() ==> s.contains(#[trigger] sort_cats(s)[k]),
    decreases s.len(),
{
    if s.len() > 0 {
        lemma_sort_cats_ensures(s.drop_last());
        lemma_insert_cat_sorted_ordered(sort_cats(s.drop_last()), s.last());
        lemma_insert_cat_sorted_elems(sort_cats(s.drop_last()), s.last());
        let sorted = sort_cats(s);
        let prev = sort_cats(s.drop_last());
        assert forall|k: int| 0 <= k < s.len() implies sorted.contains(#[trigger] s[k]) by {
            if k < s.len() - 1 {
                assert(prev.contains(s.drop_last()[k]));
            } else {
                assert(s[k] == s.last());
            }
        }
        assert forall|k: int| 0 <= k < sorted.len() implies s.contains(#[trigger] sorted[k]) by {
            if sorted[k] == s.last() {
                assert(s[s.len() - 1] == s.last());
            } else {
                assert(prev.contains(sorted[k]));
                let m = choose|m: int| 0 <= m < prev.len() && prev[m] == sorted[k];
                assert(s.drop_last().contains(prev[m]));
                let w = choose|w: int| 0 <= w < s.drop_last().len() && s.drop_last()[w] == prev[m];
                assert(s[w] == sorted[k]);
            }
        }
    }
}

/// Insertion adds exactly the new element.
proof fn lemma_insert_question_sorted_elems(s: Seq<QuestionV>, q: QuestionV)
    ensures
        insert_question_sorted(s, q).len() == s.len() + 1,
        forall|k: int|
            0 <= k < insert_question_sorted(s, q).len() ==> (
            #[trigger] insert_question_sorted(s, q)[k] == q || s.contains(
                insert_question_sorted(s, q)[k],
            )),
        forall|k: int|
            0 <= k < s.len() ==> insert_question_sorted(s, q).contains(#[trigger] s[k]),
        insert_question_sorted(s, q).contains(q),
    decreases s.len(),
{
    let out = insert_question_sorted(s, q);
    if s.len() == 0 {
        assert(out[0] == q);
    } else if question_lt(q, s.first()) {
        assert(out[0] == q);
        assert forall|k: int| 0 <= k < s.len() implies out.contains(#[trigger] s[k]) by {
            assert(out[k + 1] == s[k]);
        }
    } else {
        lemma_insert_question_sorted_elems(s.drop_first(), q);
        let rest = insert_question_sorted(s.drop_first(), q);
        assert forall|k: int|
            0 <= k < out.len() implies (#[trigger] out[k] == q || s.contains(out[k])) by {
            if k == 0 {
                assert(out[0] == s[0]);
            } else {
                assert(out[k] == rest[k - 1]);
                if rest[k - 1] != q {
                    let m = choose|m: int|
                        0 <= m < s.drop_first().len() && s.drop_first()[m] == rest[k - 1];
                    assert(s[m + 1] == rest[k - 1]);
                }
            }
        }
        assert forall|k: int| 0 <= k < s.len() implies out.contains(#[trigger] s[k]) by {
            if k == 0 {
                assert(out[0] == s[0]);
            } else {
                assert(rest.contains(s.drop_first()[k - 1]));
                let m = choose|m: int| 0 <= m < rest.len() && rest[m] == s[k];
                assert(out[m + 1] == s[k]);
            }
        }
        let m = choose|m: int| 0 <= m < rest.len() && rest[m] == q;
        assert(out[m + 1] == q);
    }
}

/// Insertion keeps the listing order.
proof fn lemma_insert_question_sorted_ordered(s: Seq<QuestionV>, q: QuestionV)
    requires
        questions_listed(s),
    ensures
        questions_listed(insert_question_sorted(s, q)),
    decreases s.len(),
{
    let out = insert_question_sorted(s, q);
    if s.len() == 0 {
    } else if question_lt(q, s.first()) {
        assert forall|i: int, j: int| 0 <= i < j < out.len() implies !question_lt(
            #[trigger] out[j],
            #[trigger] out[i],
        ) by {
            if i == 0 {
                assert(out[j] == s[j - 1]);
                if j > 1 {
                    assert(!question_lt(s[j - 1], s[0]));
                }
            } else {
                assert(out[i] == s[i - 1] && out[j] == s[j - 1]);
            }
        }
    } else {
        assert(questions_listed(s.drop_first()));
        lemma_insert_question_sorted_ordered(s.drop_first(), q);
        lemma_insert_question_sorted_elems(s.drop_first(), q);
        let rest = insert_question_sorted(s.drop_first(), q);
        assert forall|i: int, j: int| 0 <= i < j < out.len() implies !question_lt(
            #[trigger] out[j],
            #[trigger] out[i],
        ) by {
            if i == 0 {
                assert(out[j] == rest[j - 1]);
                if rest[j - 1] == q {
                    assert(!question_lt(q, s[0]));
                } else {
                    let m = choose|m: int|
                        0 <= m < s.drop_first().len() && s.drop_first()[m] == rest[j - 1];
                    assert(s[m + 1] == rest[j - 1]);
                    assert(!question_lt(s[m + 1], s[0]));
                }
            } else {
                assert(out[i] == rest[i - 1] && out[j] == rest[j - 1]);
            }
        }
    }
}

/// The listing the question queries return: ordered, and holding exactly
/// the records given to the sort.
pub proof fn lemma_sort_questions_ensures(s: Seq<QuestionV>)
    ensures
        questions_listed(sort_questions(s)),
        sort_questions(s).len() == s.len(),
        forall|k: int| 0 <= k < s.len() ==> sort_questions(s).contains(#[trigger] s[k]),
        forall|k: int|
            0 <= k < sort_questions(s).len() ==> s.contains(#[trigger] sort_questions(s)[k]),
    decreases s.len(),
{
    if s.len() > 0 {
        lemma_sort_questions_ensures(s.drop_last());
        lemma_insert_question_sorted_ordered(sort_questions(s.drop_last()), s.last());
        lemma_insert_question_sorted_elems(sort_questions(s.drop_last()), s.last());
        let sorted = sort_questions(s);
        let prev = sort_questions(s.drop_last());
        assert forall|k: int| 0 <= k < s.len() implies sorted.contains(#[trigger] s[k]) by {
            if k < s.len() - 1 {
                assert(prev.contains(s.drop_last()[k]));
            } else {
                assert(s[k] == s.last());
            }
        }
        assert forall|k: int| 0 <= k < sorted.len() implies s.contains(#[trigger] sorted[k]) by {
            if sorted[k] == s.last() {
                assert(s[s.len() - 1] == s.last());
            } else {
                assert(prev.contains(sorted[k]));
                let m = choose|m: int| 0 <= m < prev.len() && prev[m] == sorted[k];
                assert(s.drop_last().contains(prev[m]));
                let w = choose|w: int| 0 <= w < s.drop_last().len() && s.drop_last()[w] == prev[m];
                assert(s[w] == sorted[k]);
            }
        }
    }
}

} // verus!

