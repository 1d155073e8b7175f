# Typechecker

A verified typechecker for a configuration language with gradual typing. Terms are typechecked
statically inside type annotations, by unification with subtyping, row polymorphism and
higher-rank polymorphic annotations. Elsewhere they are only visited.

- `src/typecheck`: the typechecker. Each function has a contract that says exactly what it returns
  and how it changes the unification state.
- `src/laws`: what holds of all runs. Among others: a successful unification makes the first type a
  subtype of the second one; an identifier that a row must not contain stays forbidden to it, unless
  unification fails because of row constraints; a term that typechecks is typed by the typing rules;
  the unification table only grows; non-strict mode does not enforce any typing; reported names are
  distinct.
- `src/model.rs`: the mathematical types that contracts speak of.
- `src/term.rs`, `src/types.rs`, `src/environment.rs`, `src/eval.rs`, `src/cache.rs`,
  `src/error.rs`: terms, types, environments, imports and errors.
- `tests`: tests on concrete terms and types.

Unification variables may be unified with types that contain them, and then unification may not
end. The functions whose names end in `_within` take a bound on the number of nested calls and are
total. They return nothing if the bound does not suffice, and also, whatever the bound, for:

- a type with a unification variable that is not in the table;
- a term with an operator that has no type, as it is only produced during evaluation;
- a term with a resolved import that the import resolver does not have;
- the report of a `DomainMismatch` or `CodomainMismatch` between types that are not arrows;
- the report of an error when the counter of the letters that name variables is full.

The other functions require that the run returns.
