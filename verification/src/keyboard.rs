//! Reply keyboards: rows of button labels built from catalog listings.
//!
//! The category keyboard lays names out two per row; a question keyboard
//! lays texts out one per row and appends a `"Go Back"` row.

use vstd::prelude::*;

verus! {

use vstd::string::StringExecFns;

use crate::catalog::{joins_public, sort_cats, sort_questions, Catalog, CatalogV};
use crate::models::{CategoryV, QuestionV};

/// The label of the row that leaves a question keyboard.
pub fn go_back_label() -> (r: String)
    ensures
        r@ == "Go Back"@,
{
    "Go Back".to_owned()
}

/// Button labels grouped into rows of `per_row`, in order; a last short
/// row holds the remainder.
pub open spec fn spec_keyboard_rows(data: Seq<Seq<char>>, per_row: int) -> Seq<Seq<Seq<char>>>
    recommends
        per_row > 0,
    decreases data.len(),
    when per_row > 0
{
    if data.len() == 0 {
        Seq::empty()
    } else if data.len() <= per_row {
        seq![data]
    } else {
        seq![data.take(per_row)] + spec_keyboard_rows(data.skip(per_row), per_row)
    }
}

/// The names of the categories as chat users see them: public ones only,
/// in listing order.
pub open spec fn spec_public_category_names(cat: CatalogV) -> Seq<Seq<char>> {
    let listed = sort_cats(cat.categories.filter(|c: CategoryV| !c.hidden));
    Seq::new(listed.len(), |i: int| listed[i].name)
}

/// The question texts offered for the public category carrying `name`.
pub open spec fn spec_public_question_texts(cat: CatalogV, name: Seq<char>) -> Seq<Seq<char>> {
    let listed = sort_questions(cat.questions.filter(|q: QuestionV| joins_public(q, cat.categories, name)));
    Seq::new(listed.len(), |i: int| listed[i].question)
}

/// The category keyboard: public category names, two per row.
pub open spec fn spec_categories_keyboard(cat: CatalogV) -> Seq<Seq<Seq<char>>> {
    spec_keyboard_rows(spec_public_category_names(cat), 2)
}

/// The question keyboard of the public category carrying `name`: its
/// question texts one per row, then a `"Go Back"` row.
pub open spec fn spec_questions_keyboard(cat: CatalogV, name: Seq<char>) -> Seq<Seq<Seq<char>>> {
    spec_keyboard_rows(spec_public_question_texts(cat, name), 1) + seq![seq!["Go Back"@]]
}

/// Groups `data` into rows of `per_row` labels, appending a `"Go Back"`
/// row when `with_exit` is set.
pub fn make_keyboard(data: Vec<String>, per_row: usize, with_exit: bool) -> (r: Vec<Vec<String>>)
    requires
        per_row > 0,
    ensures
        r.deep_view() == spec_keyboard_rows(data.deep_view(), per_row as int) + if with_exit {
            seq![seq!["Go Back"@]]
        } else {
            Seq::<Seq<Seq<char>>>::empty()
        },
{
    let ghost dv = data.deep_view();
    let mut keyboard: Vec<Vec<String>> = Vec::new();
    let mut i: usize = 0;
    proof {
        assert(dv.skip(0) =~= dv);
        assert(spec_keyboard_rows(dv, per_row as int) =~= keyboard.deep_view()
            + spec_keyboard_rows(dv.skip(0), per_row as int));
    }
    while i < data.len()
        invariant
            dv == data.deep_view(),
            per_row > 0,
            i <= dv.len(),
            spec_keyboard_rows(dv, per_row as int) =~= keyboard.deep_view() + spec_keyboard_rows(
                dv.skip(i as int),
                per_row as int,
            ),
        decreases dv.len() - i,
    {
        let ghost rest = dv.skip(i as int);
        let end = if data.len() - i <= per_row {
            data.len()
        } else {
            i + per_row
        };
        let mut row: Vec<String> = Vec::new();
        let mut j = i;
        while j < end
            invariant
                dv == data.deep_view(),
                i <= j <= end <= dv.len(),
                row.deep_view() =~= dv.subrange(i as int, j as int),
                row@.len() == j - i,
            decreases end - j,
        {
            row.push(data[j].clone());
            j = j + 1;
            proof {
                assert(row.deep_view() =~= dv.subrange(i as int, j as int));
            }
        }
        keyboard.push(row);
        proof {
            if rest.len() <= per_row {
                assert(dv.subrange(i as int, end as int) =~= rest);
                assert(spec_keyboard_rows(rest, per_row as int) =~= seq![rest]);
            } else {
                assert(dv.subrange(i as int, end as int) =~= rest.take(per_row as int));
                assert(dv.skip(end as int) =~= rest.skip(per_row as int));
            }
            assert(spec_keyboard_rows(dv, per_row as int) =~= keyboard.deep_view()
                + spec_keyboard_rows(dv.skip(end as int), per_row as int));
        }
        i = end;
    }
    proof {
        assert(dv.skip(dv.len() as int) =~= Seq::<Seq<char>>::empty());
        assert(spec_keyboard_rows(Seq::<Seq<char>>::empty(), per_row as int)
            =~= Seq::<Seq<Seq<char>>>::empty());
    }
    if with_exit {
        let mut exit_row: Vec<String> = Vec::new();
        exit_row.push(go_back_label());
        keyboard.push(exit_row);
        proof {
            assert(exit_row.deep_view() =~= seq!["Go Back"@]);
            assert(keyboard.deep_view() =~= spec_keyboard_rows(dv, per_row as int) + seq![
                seq!["Go Back"@],
            ]);
        }
    } else {
        proof {
            assert(keyboard.deep_view() =~= spec_keyboard_rows(dv, per_row as int)
                + Seq::<Seq<Seq<char>>>::empty());
        }
    }
    keyboard
}

/// The category keyboard of `catalog`: public category names, two per
/// row.
pub fn make_categories_keyboard(catalog: &Catalog) -> (r: Vec<Vec<String>>)
    ensures
        r.deep_view() == spec_categories_keyboard(catalog@),
{
    let cats = catalog.get_public_categories();
    let ghost listed = cats.deep_view();
    let mut names: Vec<String> = Vec::new();
    let mut i: usize = 0;
    while i < cats.len()
        invariant
            listed == cats.deep_view(),
            i <= listed.len(),
            names@.len() == i,
            forall|k: int| 0 <= k < i ==> names.deep_view()[k] == (#[trigger] listed[k]).name,
        decreases listed.len() - i,
    {
        let label = cats[i].name.clone();
        names.push(label);
        i = i + 1;
        proof {
            assert(names@.len() == i as int);
            assert(names@[i as int - 1]@ == listed[i as int - 1].name);
        }
    }
    proof {
        assert(names.deep_view() =~= spec_public_category_names(catalog@));
    }
    make_keyboard(names, 2, false)
}

/// The question keyboard of the public category carrying `category`; the
/// category is unknown, hidden, or empty exactly when the offered list is
/// empty, and then no keyboard exists.
pub fn make_questions_keyboard(catalog: &Catalog, category: &String) -> (r: Result<
    Vec<Vec<String>>,
    (),
>)
    ensures
        r is Ok <==> spec_public_question_texts(catalog@, category@).len() > 0,
        r matches Ok(kb) ==> kb.deep_view() == spec_questions_keyboard(catalog@, category@),
{
    let questions = catalog.get_public_questions_for_public_category(category);
    let ghost listed = questions.deep_view();
    let mut texts: Vec<String> = Vec::new();
    let mut i: usize = 0;
    while i < questions.len()
        invariant
            listed == questions.deep_view(),
            i <= listed.len(),
            texts@.len() == i,
            forall|k: int| 0 <= k < i ==> texts.deep_view()[k] == (#[trigger] listed[k]).question,
        decreases listed.len() - i,
    {
        let label = questions[i].question.clone();
        texts.push(label);
        i = i + 1;
        proof {
            assert(texts@.len() == i as int);
            assert(texts@[i as int - 1]@ == listed[i as int - 1].question);
        }
    }
    proof {
        assert(texts.deep_view() =~= spec_public_question_texts(catalog@, category@));
    }
    if texts.len() == 0 {
        return Err(());
    }
    Ok(make_keyboard(texts, 1, true))
}


/// Reading the keyboard row by row gives back exactly the labels it was
/// built from: nothing is lost or invented by the row layout.
pub proof fn lemma_keyboard_rows_flatten(data: Seq<Seq<char>>, per_row: int)
    requires
        per_row > 0,
    ensures
        spec_keyboard_rows(data, per_row).flatten() == data,
    decreases data.len(),
{
    if data.len() == 0 {
        assert(spec_keyboard_rows(data, per_row).flatten() =~= data);
    } else if data.len() <= per_row {
        seq![data].lemma_flatten_one_element();
    } else {
        lemma_keyboard_rows_flatten(data.skip(per_row), per_row);
        vstd::seq_lib::lemma_flatten_concat(
            seq![data.take(per_row)],
            spec_keyboard_rows(data.skip(per_row), per_row),
        );
        seq![data.take(per_row)].lemma_flatten_one_element();
        assert(data.take(per_row) + data.skip(per_row) =~= data);
    }
}

/// The category keyboard is complete and honest: read row by row, it
/// spells exactly the public category names in listing order.
pub proof fn lemma_categories_keyboard_complete(cat: CatalogV)
    ensures
        spec_categories_keyboard(cat).flatten() == spec_public_category_names(cat),
{
    lemma_keyboard_rows_flatten(spec_public_category_names(cat), 2);
}

/// The question keyboard is complete and honest: read row by row, it
/// spells the offered question texts in listing order, then `"Go Back"`.
pub proof fn lemma_questions_keyboard_complete(cat: CatalogV, name: Seq<char>)
    ensures
        spec_questions_keyboard(cat, name).flatten() == spec_public_question_texts(cat, name)
            + seq!["Go Back"@],
{
    lemma_keyboard_rows_flatten(spec_public_question_texts(cat, name), 1);
    vstd::seq_lib::lemma_flatten_concat(
        spec_keyboard_rows(spec_public_question_texts(cat, name), 1),
        seq![seq!["Go Back"@]],
    );
    seq![seq!["Go Back"@]].lemma_flatten_one_element();
}

} // verus!
