# pathfinder

A degree planner: a catalog of degrees, requirement groups and classes, and the
analysis that picks the classes satisfying a degree.

The library (`src/`) is verified with Verus:

- `db`, `models`: an in-memory relational store with one table per kind of row
  (universities, subdivisions, degrees, components, classes and the associations
  between them), serial ids, and the find / create / update / destroy operations
  of each model.
- `catalog`, `catalog_data`, `catalog_maker`, `catalog_maker_data`: the hard-coded
  catalogs and the code that stores them, each entry once.
- `dev`: the seeding tool, with a store of its own: the classes of the catalog,
  each with a component that names the class it stands for.
- `req_holder`, `requirements_graph`: the requirement graph of a degree, built from
  the store.
- `planner` (group planner) and `queue_planner` (the older queue planner), with
  `analysis_common`: the analysis of the graph and the schedule of a queue;
  `prerequisites`: the check that every selected class has its prerequisites
  among the requirements of the degree. Each planner can tell beforehand
  whether a schedule can be built (`can_build_schedule`): the analysis of some
  graphs fails or does not end, and the planners ask for graphs where it does.
- `graph`: a small directed graph keyed by node id.
- `properties`: the laws of the library, as proof functions.

`app/` is the HTTP service around the library (routes, JSON bodies, the shared
store). `tests/` runs the library on concrete catalogs.
