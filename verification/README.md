# compare-packages

Compares the binary packages of two ALT Linux branches for one architecture:
the packages only the first branch has, those only the second has, and those
whose epoch-version-release is greater in the first branch than in the second.

- `src/` is the library, verified with Verus: package and branch models, the
  package comparisons, the architecture list, the decisions taken on the
  database's answers, and the laws that hold of them.
- `app/` is the command-line program: it asks for the branches and the
  architecture, fetches the package lists over HTTP and prints the result as JSON.
- `tests/` exercises the library on concrete package lists.
