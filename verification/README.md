# pdf_classifier_core

Classifies the pages of a PDF document against a schema of object types (chapters,
subchapters, diagram/datatable pairs). Each page's type is inferred from the decisions made
on the pages before it, then confirmed by the user's classify routine running on worker
threads; what a confirmed page holds is extracted and streamed to a front-end.

## Layout

- `src/` is the verified library (Verus):
  - `page`, `page_lock`, `page_keeper`: the page cursor and its lock.
  - `schema`: the object types and their hierarchy.
  - `context`: the decisions made so far, the current parent and the known failures.
  - `constraints`, `weighting`: definitive, hard, soft and override constraints.
  - `obj_list`, `inferencer`: the inference pipeline that names a page's type.
  - `classifiers`: the committed, deferral and override stream modes, and the decision of
    what the classification loop does next.
  - `stream`, `threading`: the frames sent to the front-end and the work handed to workers.
- `app/` is the program around it: argument parsing, logging, the C++ bindings, the worker
  threads and their pool, the TCP stream, and the loop that performs what the library
  decides.
- `tests/` exercises the library on concrete documents and pages.
