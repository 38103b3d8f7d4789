use crate::display_syntax::opt_string_view;
use crate::program::strings_view;
use crate::transformers::{env_view, EnvView};
use vstd::prelude::*;

verus! {

/// A value that stands for a text that may be absent.
pub trait ToOptionalString {
    spec fn optional_view(&self) -> Option<Seq<char>>;

    fn to_optional_string(self) -> (r: Option<String>)
        ensures
            opt_string_view(r) == self.optional_view(),
    ;
}

impl<'a> ToOptionalString for &'a str {
    open spec fn optional_view(&self) -> Option<Seq<char>> {
        Some(self@)
    }

    fn to_optional_string(self) -> (r: Option<String>) {
        Some(self.to_owned())
    }
}

impl<'a> ToOptionalString for Option<&'a str> {
    open spec fn optional_view(&self) -> Option<Seq<char>> {
        match self {
            Some(s) => Some(s@),
            None => None,
        }
    }

    fn to_optional_string(self) -> (r: Option<String>) {
        match self {
            Some(s) => Some(s.to_owned()),
            None => None,
        }
    }
}

impl ToOptionalString for Option<String> {
    open spec fn optional_view(&self) -> Option<Seq<char>> {
        opt_string_view(*self)
    }

    fn to_optional_string(self) -> (r: Option<String>) {
        self
    }
}

/// An environment given as pairs of a name and an optional value; a later pair wins.
pub trait ToEnvs {
    spec fn envs_view(&self) -> EnvView;

    fn to_envs(self) -> (r: Vec<(String, Option<String>)>)
        ensures
            env_view(r@) == self.envs_view(),
    ;
}

impl ToEnvs for Vec<(String, Option<String>)> {
    open spec fn envs_view(&self) -> EnvView {
        env_view(self@)
    }

    fn to_envs(self) -> (r: Vec<(String, Option<String>)>) {
        self
    }
}

impl ToEnvs for Option<Vec<(String, Option<String>)>> {
    open spec fn envs_view(&self) -> EnvView {
        match self {
            Some(v) => env_view(v@),
            None => Seq::empty(),
        }
    }

    fn to_envs(self) -> (r: Vec<(String, Option<String>)>) {
        match self {
            Some(v) => v,
            None => {
                let r: Vec<(String, Option<String>)> = Vec::new();
                assert(env_view(r@) =~= Seq::empty());
                r
            },
        }
    }
}

impl<'a, D: ToOptionalString + Copy> ToEnvs for Vec<(&'a str, D)> {
    open spec fn envs_view(&self) -> EnvView {
        self@.map_values(|p: (&'a str, D)| (p.0@, p.1.optional_view()))
    }

    fn to_envs(self) -> (r: Vec<(String, Option<String>)>) {
        let mut r: Vec<(String, Option<String>)> = Vec::new();
        let mut i: usize = 0;
        while i < self.len()
            invariant
                i <= self.len(),
                env_view(r@) == self@.take(i as int).map_values(
                    |p: (&'a str, D)| (p.0@, p.1.optional_view()),
                ),
            decreases self.len() - i,
        {
            let (name, value) = self[i];
            let ghost before = r@;
            let entry = (name.to_owned(), value.to_optional_string());
            assert(env_view(seq![entry]) =~= seq![(self@[i as int].0@, self@[i as int].1.optional_view())]);
            r.push(entry);
            assert(r@ =~= before + seq![entry]);
            assert(env_view(r@) =~= env_view(before) + env_view(seq![entry]));
            assert(self@.take(i + 1) =~= self@.take(i as int) + seq![self@[i as int]]);
            i = i + 1;
            assert(env_view(r@) =~= self@.take(i as int).map_values(
                |p: (&'a str, D)| (p.0@, p.1.optional_view()),
            ));
        }
        assert(self@.take(i as int) =~= self@);
        r
    }
}

/// The custom type names given to resolution.
pub trait ToCustomTransformers {
    spec fn names_view(&self) -> Seq<Seq<char>>;

    fn to_vec(self) -> (r: Vec<String>)
        ensures
            strings_view(r@) == self.names_view(),
    ;
}

impl ToCustomTransformers for Vec<String> {
    open spec fn names_view(&self) -> Seq<Seq<char>> {
        strings_view(self@)
    }

    fn to_vec(self) -> (r: Vec<String>) {
        self
    }
}

impl ToCustomTransformers for Option<Vec<String>> {
    open spec fn names_view(&self) -> Seq<Seq<char>> {
        match self {
            Some(v) => strings_view(v@),
            None => Seq::empty(),
        }
    }

    fn to_vec(self) -> (r: Vec<String>) {
        match self {
            Some(v) => v,
            None => {
                let r: Vec<String> = Vec::new();
                assert(strings_view(r@) =~= Seq::empty());
                r
            },
        }
    }
}

impl<'a> ToCustomTransformers for Vec<&'a str> {
    open spec fn names_view(&self) -> Seq<Seq<char>> {
        self@.map_values(|s: &'a str| s@)
    }

    fn to_vec(self) -> (r: Vec<String>) {
        let mut r: Vec<String> = Vec::new();
        let mut i: usize = 0;
        while i < self.len()
            invariant
                i <= self.len(),
                strings_view(r@) == self@.take(i as int).map_values(|s: &'a str| s@),
            decreases self.len() - i,
        {
            let ghost before = r@;
            let s = self[i].to_owned();
            r.push(s);
            assert(strings_view(r@) =~= strings_view(before).push(self@[i as int]@));
            assert(self@.take(i + 1) =~= self@.take(i as int).push(self@[i as int]));
            i = i + 1;
            assert(strings_view(r@) =~= self@.take(i as int).map_values(|s: &'a str| s@));
        }
        assert(self@.take(i as int) =~= self@);
        r
    }
}

} // verus!
