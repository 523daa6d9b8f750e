# setools

A verified library of SELinux policy analyses: permission maps, domain
transition and information flow graphs, the checker's configuration and
verdicts, policy comparison, and the text and JSON that the command-line
programs write. The library in `src/` is written in Verus; every public
function states in its contract what it returns.

- `src/policy.rs` is the owned policy model the analyses read.
- `src/graph.rs`, `src/infoflow.rs`: the graphs and their queries.
- `src/checks.rs`, `src/verdicts.rs`, `src/report.rs`: the checker.
- `src/diff.rs`, `src/policy_diff.rs`, `src/diff_report.rs`: comparison.
- `src/dta_report.rs`, `src/statistics.rs`: rendering of results.
- `src/trace.rs`: the checker's verbose and debug log lines.
- `src/seinfo.rs`, `src/components.rs`, `src/class_rules.rs`,
  `src/labeling.rs`, `src/table_counts.rs`: the policy information
  listings (symbols, classes, constraints, users, labeling statements) and
  statistics, from the policy model and plain tables beside it.
- `app/` holds the programs: argument and file handling, policy loading
  through the outside policy crates, and output.
